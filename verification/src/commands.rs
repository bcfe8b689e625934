//! One synchronisation pass: what is needed for it, and what it does with
//! the entries that each source gave.

use crate::cache::Cache;
use crate::config::{configured_chunk_size, Config, ExcludedIps};
use crate::ip::IP;
use crate::nfset::{command_views, update_commands, NfSet, SetCommand, SetCommandView};
use crate::provider::FetchStatus;
use crate::source::Source;
use crate::timestamp::Timestamp;
use vstd::prelude::*;

verus! {

/// The options that every command takes.
#[derive(Debug)]
pub struct GlobalOptions {
    /// The path of the configuration file.
    pub config: String,
}

/// The command that updates every set from its sources.
#[derive(Debug)]
pub struct Command {
    global_options: GlobalOptions,
}

/// A configuration together with what a pass shares between its sources:
/// the exclusion list and the freshness cache.
pub struct UpdateRequest {
    pub config: Config,
    pub excluded_ips: Vec<IP>,
    pub sources_cache: Cache,
}

/// Collects what an [`UpdateRequest`] is made of.
pub struct UpdateRequestBuilder {
    config: Config,
    sources_cache: Option<Cache>,
}

/// How the download of one source ended.
#[derive(Debug)]
pub enum Download {
    /// A fetch failed: the source is left out of this pass.
    Failed,
    /// The merged, filtered entries.
    Entries(Vec<IP>),
}

/// What a pass does to the set of one source.
#[derive(Debug)]
pub struct SourceUpdate<'a> {
    pub set: NfSet<'a>,
    /// The commands for the set, to be applied one after the other.
    pub commands: Vec<SetCommand>,
}

/// The commands that follow the download of a source: none after a failure,
/// else those that bring the entries into the set.
pub open spec fn commands_after(download: Download, chunk_size: nat) -> Seq<SetCommandView> {
    match download {
        Download::Failed => Seq::empty(),
        Download::Entries(entries) => update_commands(entries@, chunk_size),
    }
}

impl UpdateRequest {
    /// The most elements that one command adds.
    pub fn chunk_size(&self) -> (r: usize)
        ensures
            r == configured_chunk_size(self.config),
    {
        self.config.chunk_size()
    }

    /// The exclusion list of the pass.
    pub fn excluded_ips(&self) -> (r: &Vec<IP>)
        ensures
            r@ == self.excluded_ips@,
    {
        &self.excluded_ips
    }

    /// The freshness cache of the pass, for reading and recording.
    pub fn sources_cache(&mut self) -> (r: &mut Cache)
        ensures
            *r == old(self).sources_cache,
            final(self).sources_cache == *final(r),
            final(self).excluded_ips == old(self).excluded_ips,
            final(self).config == old(self).config,
    {
        &mut self.sources_cache
    }
}

impl UpdateRequestBuilder {
    /// A builder for a pass over the given configuration, with a cache of its own.
    pub fn new(config: Config) -> (r: UpdateRequestBuilder)
        ensures
            r.config() == config,
            r.given_cache() is None,
    {
        UpdateRequestBuilder { config, sources_cache: None }
    }

    /// The configuration that the request will hold.
    pub closed spec fn config(&self) -> Config {
        self.config
    }

    /// The cache that was handed in, if one was.
    pub closed spec fn given_cache(&self) -> Option<Cache> {
        self.sources_cache
    }

    /// Lets the pass use a cache that earlier passes have filled.
    pub fn set_sources_cache(self, sources_cache: Cache) -> (r: UpdateRequestBuilder)
        ensures
            r.config() == self.config(),
            r.given_cache() == Some(sources_cache),
    {
        UpdateRequestBuilder { config: self.config, sources_cache: Some(sources_cache) }
    }

    /// The URL that the exclusion list has to be fetched from, where the
    /// configuration names one.
    pub fn excluded_url(&self) -> (r: Option<&String>)
        ensures
            match self.config().excluded_ips {
                Some(ExcludedIps::Url(url)) => r == Some(&url),
                _ => r is None,
            },
    {
        match &self.config.excluded_ips {
            Some(ExcludedIps::Url(url)) => Some(url),
            _ => None,
        }
    }

    /// Makes the request. `fetched` is the result of fetching the exclusion
    /// list from its URL, where the configuration names one; it is not looked
    /// at otherwise. The exclusion list of the request is what was fetched,
    /// or the list written out in the configuration, or empty. The
    /// configuration keeps everything but its exclusions, which move into the
    /// request.
    pub fn build(self, fetched: FetchStatus) -> (r: UpdateRequest)
        requires
            self.config().excluded_ips matches Some(ExcludedIps::Url(_)) ==> fetched is Success,
        ensures
            r.excluded_ips@ == match self.config().excluded_ips {
                Some(ExcludedIps::Url(_)) => fetched->Success_0.addresses@,
                Some(ExcludedIps::List(list)) => list@,
                None => Seq::<IP>::empty(),
            },
            r.sources_cache@ == match self.given_cache() {
                Some(cache) => cache@,
                None => Map::<Seq<char>, Timestamp>::empty(),
            },
            r.config == (Config { excluded_ips: None, ..self.config() }),
    {
        let mut config = self.config;
        let excluded_ips = match config.excluded_ips.take() {
            Some(ExcludedIps::Url(_)) => fetched.unwrap().addresses,
            Some(ExcludedIps::List(list)) => list,
            None => Vec::new(),
        };
        let sources_cache = match self.sources_cache {
            Some(cache) => cache,
            None => Cache::new(),
        };
        UpdateRequest { config, excluded_ips, sources_cache }
    }
}

impl Command {
    /// The update command with the given options.
    pub fn new(options: GlobalOptions) -> (r: Command)
        ensures
            r.options() == options,
    {
        Command { global_options: options }
    }

    /// The options that the command was made with.
    pub closed spec fn options(&self) -> GlobalOptions {
        self.global_options
    }

    /// The options that the command was made with.
    pub fn global_options(&self) -> (r: &GlobalOptions)
        ensures
            *r == self.options(),
    {
        &self.global_options
    }

    /// What the pass does to the set of one source, once the source's
    /// download has ended: nothing after a failure and nothing without
    /// entries, whatever the chunk size, else one flush and the additions in
    /// chunks.
    pub fn perform_update<'a>(
        &self,
        config: &'a Config,
        source: &'a Source,
        download: Download,
    ) -> (r: SourceUpdate<'a>)
        requires
            download matches Download::Entries(entries) && entries@.len() > 0
                ==> configured_chunk_size(*config) > 0,
        ensures
            r.set.name@ == source.set_name@,
            r.set.table@ == config.table_name@,
            r.set.template == &source.set_template,
            command_views(r.commands@) == commands_after(
                download,
                configured_chunk_size(*config) as nat,
            ),
            r.commands@.len() == 0 <==> !(download matches Download::Entries(entries)
                && entries@.len() > 0),
    {
        let set = NfSet::with_template(
            source.set_name.as_str(),
            config.table_name.as_str(),
            &source.set_template,
        );
        let commands = match download {
            Download::Failed => {
                let nothing: Vec<SetCommand> = Vec::new();
                proof {
                    assert(command_views(nothing@) =~= Seq::<SetCommandView>::empty());
                }
                nothing
            },
            Download::Entries(entries) => set.update(entries, config.chunk_size()),
        };
        SourceUpdate { set, commands }
    }
}

/// How far a pass has come: the sources are taken one after the other,
/// each exactly once, and one that fails does not keep the next from its
/// turn.
#[derive(Debug)]
pub struct PassProgress {
    sources: usize,
    done: usize,
    failed: usize,
}

impl PassProgress {
    /// The number of sources of the pass.
    pub closed spec fn sources(&self) -> nat {
        self.sources as nat
    }

    /// The number of sources that have had their turn.
    pub closed spec fn done(&self) -> nat {
        self.done as nat
    }

    /// The number of sources whose turn ended in a failure.
    pub closed spec fn failed(&self) -> nat {
        self.failed as nat
    }

    #[verifier::type_invariant]
    spec fn within_sources(&self) -> bool {
        self.failed <= self.done <= self.sources
    }

    /// The source whose turn is next: the first that has not had it.
    pub open spec fn pending(&self) -> Option<usize> {
        if self.done() < self.sources() {
            Some(self.done() as usize)
        } else {
            None
        }
    }

    /// The start of a pass over the given number of sources.
    pub fn new(sources: usize) -> (r: PassProgress)
        ensures
            r.sources() == sources,
            r.done() == 0,
            r.failed() == 0,
    {
        PassProgress { sources, done: 0, failed: 0 }
    }

    /// The index of the source whose turn is next; `None` once every source has had its turn.
    pub fn next_source(&self) -> (r: Option<usize>)
        ensures
            r == self.pending(),
    {
        proof {
            use_type_invariant(self);
        }
        if self.done < self.sources {
            Some(self.done)
        } else {
            None
        }
    }

    /// Ends the turn of the pending source. Whether its download and its
    /// commands succeeded or not, the source after it is next; a failure is
    /// only counted. Without a pending source nothing changes.
    pub fn finish_source(&mut self, succeeded: bool)
        ensures
            final(self).sources() == old(self).sources(),
            final(self).done() == if old(self).pending() is Some {
                old(self).done() + 1
            } else {
                old(self).done()
            },
            final(self).failed() == if old(self).pending() is Some && !succeeded {
                old(self).failed() + 1
            } else {
                old(self).failed()
            },
    {
        proof {
            use_type_invariant(&*self);
        }
        if self.done < self.sources {
            self.done = self.done + 1;
            if !succeeded {
                self.failed = self.failed + 1;
            }
        }
    }

    /// Whether every source that has had its turn succeeded.
    pub fn all_succeeded(&self) -> (r: bool)
        ensures
            r == (self.failed() == 0),
    {
        self.failed == 0
    }
}

/// A source whose download gave no entries, or failed, leaves its set
/// untouched: no flush and no addition is made for it.
pub proof fn lemma_nothing_downloaded_nothing_applied(download: Download, chunk_size: nat)
    requires
        download matches Download::Entries(entries) ==> entries@.len() == 0,
    ensures
        commands_after(download, chunk_size).len() == 0,
{
}

} // verus!
