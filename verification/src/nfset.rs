//! The firewall set that a source fills, and the commands that fill it.
//!
//! A set is only touched when there is something to load: it is flushed
//! once, then the entries are added in consecutive chunks, one command each.

use crate::ip::IP;
use crate::source::SetTemplate;
use vstd::arithmetic::div_mod::lemma_fundamental_div_mod_converse;
use vstd::prelude::*;

verus! {

/// The protocol family of a table.
#[derive(Clone, Copy, Debug, PartialEq, Eq, Structural)]
pub enum NfFamily {
    IP,
    IP6,
    INet,
    ARP,
    Bridge,
    NetDev,
}

/// The type of the elements of a set.
#[derive(Clone, Copy, Debug, PartialEq, Eq, Structural)]
pub enum SetType {
    Ipv4Addr,
    Ipv6Addr,
    EtherAddr,
    InetProto,
    InetService,
    Mark,
    Ifname,
}

/// The type of a set: one element type, or several concatenated.
#[derive(Debug)]
pub enum SetTypeValue {
    Single(SetType),
    Concatenated(Vec<SetType>),
}

/// What a set is optimised for.
#[derive(Clone, Copy, Debug, PartialEq, Eq, Structural)]
pub enum SetPolicy {
    Performance,
    Memory,
}

/// The flags of a set: for each flag, whether the set has it.
#[derive(Clone, Copy, Debug, PartialEq, Eq, Structural)]
pub struct SetFlags {
    pub constant: bool,
    pub interval: bool,
    pub timeout: bool,
    pub dynamic: bool,
}

/// A named set of a table, with the attributes it is declared with.
#[derive(Debug)]
pub struct NfSet<'a> {
    pub name: &'a str,
    pub table: &'a str,
    pub template: &'a SetTemplate,
}

/// One command for the set.
#[derive(Debug, PartialEq, Eq)]
pub enum SetCommand {
    /// Remove every element of the set.
    Flush,
    /// Add the elements to the set.
    AddElements(Vec<IP>),
}

/// What a command says, with its elements as a sequence.
pub enum SetCommandView {
    Flush,
    AddElements(Seq<IP>),
}

impl View for SetCommand {
    type V = SetCommandView;

    open spec fn view(&self) -> SetCommandView {
        match self {
            SetCommand::Flush => SetCommandView::Flush,
            SetCommand::AddElements(elements) => SetCommandView::AddElements(elements@),
        }
    }
}

/// What the commands say, one by one.
pub open spec fn command_views(commands: Seq<SetCommand>) -> Seq<SetCommandView> {
    Seq::new(commands.len(), |k: int| commands[k]@)
}

/// The number of chunks of at most `chunk_size` entries that `len` entries fill.
pub open spec fn chunk_count(len: nat, chunk_size: nat) -> nat {
    ((len + chunk_size - 1) / (chunk_size as int)) as nat
}

/// The `index`-th chunk of the entries: `chunk_size` of them from where the
/// chunk before ended, or as many as are left.
pub open spec fn chunk_at(entries: Seq<IP>, chunk_size: nat, index: int) -> Seq<IP> {
    let start = index * chunk_size;
    let end = if start + chunk_size <= entries.len() {
        start + chunk_size
    } else {
        entries.len() as int
    };
    entries.subrange(start, end)
}

/// The additions that load the entries: one per chunk, in order.
pub open spec fn load_commands(entries: Seq<IP>, chunk_size: nat) -> Seq<SetCommandView> {
    Seq::new(
        chunk_count(entries.len(), chunk_size),
        |index: int| SetCommandView::AddElements(chunk_at(entries, chunk_size, index)),
    )
}

/// The commands that bring the entries into a set: none where there are no
/// entries, else one flush and then the additions.
pub open spec fn update_commands(entries: Seq<IP>, chunk_size: nat) -> Seq<SetCommandView> {
    if entries.len() == 0 {
        Seq::empty()
    } else {
        seq![SetCommandView::Flush] + load_commands(entries, chunk_size)
    }
}

/// The number of chunks is the one number `filled` with
/// `(filled - 1) * chunk_size < len <= filled * chunk_size`.
pub proof fn lemma_chunk_count(len: nat, chunk_size: nat, filled: nat)
    requires
        chunk_size > 0,
        filled * chunk_size < len + chunk_size,
        len <= filled * chunk_size,
    ensures
        chunk_count(len, chunk_size) == filled,
{
    let total = len + chunk_size - 1;
    let rest = total - filled * chunk_size;
    lemma_fundamental_div_mod_converse(total, chunk_size as int, filled as int, rest);
}

/// The chunk count and the entry count bound each other.
pub proof fn lemma_chunk_count_bounds(len: nat, chunk_size: nat)
    requires
        chunk_size > 0,
    ensures
        len <= chunk_count(len, chunk_size) * chunk_size < len + chunk_size,
        len == 0 <==> chunk_count(len, chunk_size) == 0,
{
    let total = (len + chunk_size - 1) as int;
    let size = chunk_size as int;
    vstd::arithmetic::div_mod::lemma_fundamental_div_mod(total, size);
    vstd::arithmetic::div_mod::lemma_mod_bound(total, size);
    vstd::arithmetic::div_mod::lemma_div_pos_is_pos(total, size);
    let count = total / size;
    assert(size * count == count * size) by (nonlinear_arith);
    if count == 0 {
        assert(count * size == 0) by (nonlinear_arith)
            requires
                count == 0,
        ;
    } else {
        assert(count * size >= size) by (nonlinear_arith)
            requires
                count >= 1,
                size > 0,
        ;
    }
}

/// Every chunk holds at least one entry and at most `chunk_size`; every
/// chunk but the last holds exactly `chunk_size`.
pub proof fn lemma_chunk_sizes(entries: Seq<IP>, chunk_size: nat, index: int)
    requires
        chunk_size > 0,
        0 <= index < chunk_count(entries.len(), chunk_size),
    ensures
        0 < chunk_at(entries, chunk_size, index).len() <= chunk_size,
        index + 1 < chunk_count(entries.len(), chunk_size) ==> chunk_at(
            entries,
            chunk_size,
            index,
        ).len() == chunk_size,
{
    lemma_chunk_count_bounds(entries.len(), chunk_size);
    let count = chunk_count(entries.len(), chunk_size) as int;
    let size = chunk_size as int;
    assert(0 <= index * size) by (nonlinear_arith)
        requires
            0 <= index,
            size > 0,
    ;
    assert((index + 1) * size <= count * size) by (nonlinear_arith)
        requires
            index + 1 <= count,
            size > 0,
    ;
    assert((index + 1) * size == index * size + size) by (nonlinear_arith);
    if index + 1 < count {
        assert((index + 2) * size <= count * size) by (nonlinear_arith)
            requires
                index + 2 <= count,
                size > 0,
        ;
        assert((index + 2) * size == index * size + 2 * size) by (nonlinear_arith);
    }
}

/// The chunks hold every entry, in order and once: the entry at position
/// `position` is the one at `position % chunk_size` of chunk `position / chunk_size`.
pub proof fn lemma_entry_is_in_its_chunk(entries: Seq<IP>, chunk_size: nat, position: int)
    requires
        chunk_size > 0,
        0 <= position < entries.len(),
    ensures
        0 <= position / (chunk_size as int) < chunk_count(entries.len(), chunk_size),
        0 <= position % (chunk_size as int) < chunk_at(
            entries,
            chunk_size,
            position / (chunk_size as int),
        ).len(),
        chunk_at(entries, chunk_size, position / (chunk_size as int))[position % (
        chunk_size as int)] == entries[position],
{
    let size = chunk_size as int;
    let index = position / size;
    let count = chunk_count(entries.len(), chunk_size) as int;
    vstd::arithmetic::div_mod::lemma_fundamental_div_mod(position, size);
    vstd::arithmetic::div_mod::lemma_mod_bound(position, size);
    vstd::arithmetic::div_mod::lemma_div_pos_is_pos(position, size);
    lemma_chunk_count_bounds(entries.len(), chunk_size);
    assert(size * index == index * size) by (nonlinear_arith);
    if index >= count {
        assert(index * size >= count * size) by (nonlinear_arith)
            requires
                index >= count,
                size > 0,
        ;
    }
}

impl<'a> NfSet<'a> {
    /// The set of the given name in the given table, declared as the template says.
    pub fn with_template(name: &'a str, table_name: &'a str, template: &'a SetTemplate) -> (r:
        NfSet<'a>)
        ensures
            r.name == name,
            r.table == table_name,
            r.template == template,
    {
        NfSet { name, table: table_name, template }
    }

    /// The command that empties the set.
    pub fn flush(&self) -> (r: SetCommand)
        ensures
            r@ == SetCommandView::Flush,
    {
        SetCommand::Flush
    }

    /// The commands that add the entries to the set: one for each chunk of
    /// `chunk_size` consecutive entries, in order, the last chunk holding what is left.
    pub fn load_entries(&self, entries: Vec<IP>, chunk_size: usize) -> (r: Vec<SetCommand>)
        requires
            chunk_size > 0,
        ensures
            command_views(r@) == load_commands(entries@, chunk_size as nat),
    {
        let mut commands: Vec<SetCommand> = Vec::new();
        let mut start: usize = 0;
        let len = entries.len();
        proof {
            assert(0 * (chunk_size as int) == 0) by (nonlinear_arith);
        }
        while start < len
            invariant
                chunk_size > 0,
                len == entries@.len(),
                start <= len,
                start < len ==> start == commands@.len() * chunk_size,
                start == len ==> len <= commands@.len() * chunk_size < len + chunk_size,
                forall|k: int|
                    0 <= k < commands@.len() ==> (#[trigger] commands@[k])@
                        == SetCommandView::AddElements(chunk_at(entries@, chunk_size as nat, k)),
            decreases len - start,
        {
            let end: usize = if len - start <= chunk_size {
                len
            } else {
                start + chunk_size
            };
            let mut chunk: Vec<IP> = Vec::new();
            let mut i: usize = start;
            while i < end
                invariant
                    start <= i <= end <= len,
                    len == entries@.len(),
                    chunk@ == entries@.subrange(start as int, i as int),
                decreases end - i,
            {
                chunk.push(entries[i]);
                proof {
                    assert(entries@.subrange(start as int, i + 1) =~= entries@.subrange(
                        start as int,
                        i as int,
                    ).push(entries@[i as int]));
                }
                i += 1;
            }
            proof {
                let filled = commands@.len() as int;
                let size = chunk_size as int;
                assert((filled + 1) * size == filled * size + size) by (nonlinear_arith);
                assert(chunk@ == chunk_at(entries@, chunk_size as nat, filled));
            }
            commands.push(SetCommand::AddElements(chunk));
            start = end;
        }
        proof {
            lemma_chunk_count(len as nat, chunk_size as nat, commands@.len() as nat);
            assert(command_views(commands@) =~= load_commands(entries@, chunk_size as nat));
        }
        commands
    }

    /// The commands that replace the set's content by the entries. Without
    /// entries there is no command at all, so that the set keeps what it
    /// has; the chunk size is not looked at then.
    pub fn update(&self, entries: Vec<IP>, chunk_size: usize) -> (r: Vec<SetCommand>)
        requires
            entries@.len() > 0 ==> chunk_size > 0,
        ensures
            command_views(r@) == update_commands(entries@, chunk_size as nat),
            r@.len() == 0 <==> entries@.len() == 0,
    {
        if entries.is_empty() {
            let nothing: Vec<SetCommand> = Vec::new();
            proof {
                assert(command_views(nothing@) =~= Seq::<SetCommandView>::empty());
            }
            return nothing;
        }
        let ghost wanted = update_commands(entries@, chunk_size as nat);
        let mut commands: Vec<SetCommand> = Vec::new();
        commands.push(self.flush());
        let mut additions = self.load_entries(entries, chunk_size);
        let ghost added = additions@;
        commands.append(&mut additions);
        proof {
            let got = command_views(commands@);
            assert(got.len() == wanted.len());
            assert forall|k: int| 0 <= k < got.len() implies got[k] == wanted[k] by {
                if k > 0 {
                    assert(commands@[k] == added[k - 1]);
                    assert(command_views(added)[k - 1] == added[k - 1]@);
                }
            }
            assert(got =~= wanted);
        }
        commands
    }
}

/// Hands the commands for a set to the caller one at a time, since `nft`
/// takes one at a time, and stops for good at the first that fails: what
/// was applied stays applied, what follows is never handed out.
#[derive(Debug)]
pub struct Loader {
    commands: Vec<SetCommand>,
    applied: usize,
    failed: bool,
}

impl Loader {
    /// The commands to apply, in order.
    pub closed spec fn commands(&self) -> Seq<SetCommand> {
        self.commands@
    }

    /// The number of commands that were applied.
    pub closed spec fn applied(&self) -> nat {
        self.applied as nat
    }

    /// A command has failed.
    pub closed spec fn failed(&self) -> bool {
        self.failed
    }

    /// No more commands were applied than there are.
    #[verifier::type_invariant]
    spec fn within_commands(&self) -> bool {
        self.applied <= self.commands@.len()
    }

    /// There is a command to apply next: none has failed and some are left.
    pub open spec fn pending(&self) -> bool {
        !self.failed() && self.applied() < self.commands().len()
    }

    /// A loader that has applied none of the commands.
    pub fn new(commands: Vec<SetCommand>) -> (r: Loader)
        ensures
            r.commands() == commands@,
            r.applied() == 0,
            !r.failed(),
    {
        Loader { commands, applied: 0, failed: false }
    }

    /// The command to apply next: the first that was not applied, unless
    /// one has failed or all are applied.
    pub fn next_command(&self) -> (r: Option<&SetCommand>)
        ensures
            self.pending() ==> r == Some(&self.commands()[self.applied() as int]),
            !self.pending() ==> r is None,
    {
        proof {
            use_type_invariant(self);
        }
        if !self.failed && self.applied < self.commands.len() {
            Some(&self.commands[self.applied])
        } else {
            None
        }
    }

    /// Takes note of how applying the command of [`Loader::next_command`]
    /// went. Without such a command nothing changes.
    pub fn report(&mut self, succeeded: bool)
        ensures
            final(self).commands() == old(self).commands(),
            final(self).applied() == if old(self).pending() && succeeded {
                old(self).applied() + 1
            } else {
                old(self).applied()
            },
            final(self).failed() == (old(self).failed() || (old(self).pending() && !succeeded)),
    {
        proof {
            use_type_invariant(&*self);
        }
        if !self.failed && self.applied < self.commands.len() {
            if succeeded {
                self.applied = self.applied + 1;
            } else {
                self.failed = true;
            }
        }
    }

    /// Whether a command has failed.
    pub fn has_failed(&self) -> (r: bool)
        ensures
            r == self.failed(),
    {
        self.failed
    }

    /// The number of commands that were applied.
    pub fn applied_count(&self) -> (r: usize)
        ensures
            r == self.applied(),
            r <= self.commands().len(),
    {
        proof {
            use_type_invariant(self);
        }
        self.applied
    }
}

/// After a failure no command is pending, whatever is reported afterwards.
pub proof fn lemma_failure_ends_the_loading(loader: Loader)
    requires
        loader.failed(),
    ensures
        !loader.pending(),
{
}

/// A list without entries gives no command: no flush and no addition.
pub proof fn lemma_no_entries_no_commands(chunk_size: nat)
    ensures
        update_commands(Seq::<IP>::empty(), chunk_size) == Seq::<SetCommandView>::empty(),
{
}

/// The commands for a list with entries start with the one flush; every
/// command after it is an addition.
pub proof fn lemma_one_flush_then_additions(entries: Seq<IP>, chunk_size: nat)
    requires
        chunk_size > 0,
        entries.len() > 0,
    ensures
        update_commands(entries, chunk_size).len() == 1 + chunk_count(entries.len(), chunk_size),
        update_commands(entries, chunk_size)[0] == SetCommandView::Flush,
        forall|k: int|
            1 <= k < update_commands(entries, chunk_size).len() ==> #[trigger] update_commands(
                entries,
                chunk_size,
            )[k] == SetCommandView::AddElements(chunk_at(entries, chunk_size, k - 1)),
{
}

} // verus!
