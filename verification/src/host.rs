//! What was observed of the host before a configuration is validated and the
//! sequence is started.

use vstd::prelude::*;
use crate::path::{clone_opt, opt_bytes, UnixPath};
use crate::signals::SignalNumbers;

verus! {

/// What was observed of one path.
#[derive(Debug)]
pub struct PathFacts {
    pub path: UnixPath,
    /// Something exists at the path.
    pub present: bool,
    /// A directory stands at the path.
    pub is_dir: bool,
    /// The effective user may write to it.
    pub writable: bool,
    /// The canonical form of the path, if it has one.
    pub canonical: Option<UnixPath>,
}

/// What was observed of the host.
#[derive(Debug)]
pub struct HostFacts {
    /// The effective user id.
    pub euid: u32,
    /// The observed paths.
    pub paths: Vec<PathFacts>,
    /// The signal numbers.
    pub signals: SignalNumbers,
}

/// The observations of one path as a mathematical value.
pub struct FactsView {
    pub present: bool,
    pub is_dir: bool,
    pub writable: bool,
    pub canonical: Option<Seq<u8>>,
}

/// The observations as a mathematical value.
pub struct HostView {
    pub euid: int,
    pub paths: Seq<(Seq<u8>, FactsView)>,
    pub signals: SignalNumbers,
}

impl View for PathFacts {
    type V = (Seq<u8>, FactsView);

    open spec fn view(&self) -> (Seq<u8>, FactsView) {
        (
            self.path@,
            FactsView {
                present: self.present,
                is_dir: self.is_dir,
                writable: self.writable,
                canonical: opt_bytes(self.canonical),
            },
        )
    }
}

impl View for HostFacts {
    type V = HostView;

    open spec fn view(&self) -> HostView {
        HostView {
            euid: self.euid as int,
            paths: facts_view(self.paths@),
            signals: self.signals,
        }
    }
}

/// Observed paths as mathematical values.
pub open spec fn facts_view(paths: Seq<PathFacts>) -> Seq<(Seq<u8>, FactsView)> {
    Seq::new(paths.len(), |i: int| paths[i]@)
}

/// What is known of a path that nobody looked at: nothing stands there.
pub open spec fn unobserved() -> FactsView {
    FactsView { present: false, is_dir: false, writable: false, canonical: None }
}

/// What the first observation of `p` says.
pub open spec fn first_facts(paths: Seq<(Seq<u8>, FactsView)>, p: Seq<u8>) -> FactsView
    decreases paths.len(),
{
    if paths.len() == 0 {
        unobserved()
    } else if paths[0].0 == p {
        paths[0].1
    } else {
        first_facts(paths.skip(1), p)
    }
}

impl HostView {
    /// What is known of `p`.
    pub open spec fn facts(self, p: Seq<u8>) -> FactsView {
        first_facts(self.paths, p)
    }
}

impl HostFacts {
    /// What was observed, together with the signal numbers of the running host.
    pub fn new(euid: u32, paths: Vec<PathFacts>) -> (r: HostFacts)
        ensures
            r@.euid == euid,
            r@.paths == facts_view(paths@),
            r@.signals.kill == 9,
            r@.signals.pipe == 13,
            r@.signals.stop == 17 || r@.signals.stop == 19 || r@.signals.stop == 23,
    {
        HostFacts { euid, paths, signals: SignalNumbers::host() }
    }

    fn find(&self, p: &UnixPath) -> (r: Option<usize>)
        ensures
            match r {
                Some(i) => i < self.paths@.len() && self.paths@[i as int]@.1 == self@.facts(p@),
                None => self@.facts(p@) == unobserved(),
            },
    {
        let mut i: usize = 0;
        assert(self@.paths.skip(0) =~= self@.paths);
        while i < self.paths.len()
            invariant
                i <= self.paths@.len(),
                first_facts(self@.paths, p@) == first_facts(self@.paths.skip(i as int), p@),
            decreases self.paths@.len() - i,
        {
            assert(self@.paths.skip(i as int)[0] == self.paths@[i as int]@);
            assert(self@.paths.skip(i as int).skip(1) =~= self@.paths.skip(i + 1));
            if self.paths[i].path.same_bytes(p) {
                return Some(i);
            }
            i = i + 1;
        }
        None
    }

    /// Whether something exists at `p`.
    pub fn is_present(&self, p: &UnixPath) -> (r: bool)
        ensures
            r == self@.facts(p@).present,
    {
        match self.find(p) {
            Some(i) => self.paths[i].present,
            None => false,
        }
    }

    /// Whether a directory stands at `p`.
    pub fn is_dir(&self, p: &UnixPath) -> (r: bool)
        ensures
            r == self@.facts(p@).is_dir,
    {
        match self.find(p) {
            Some(i) => self.paths[i].is_dir,
            None => false,
        }
    }

    /// Whether `p` may be written to.
    pub fn writable(&self, p: &UnixPath) -> (r: bool)
        ensures
            r == self@.facts(p@).writable,
    {
        match self.find(p) {
            Some(i) => self.paths[i].writable,
            None => false,
        }
    }

    /// The canonical form of `p`.
    pub fn canonical(&self, p: &UnixPath) -> (r: Option<UnixPath>)
        ensures
            opt_bytes(r) == self@.facts(p@).canonical,
    {
        match self.find(p) {
            Some(i) => clone_opt(&self.paths[i].canonical),
            None => None,
        }
    }
}

/// What is known of a path is what its first observation says; of a path that nobody
/// looked at it is known that nothing stands there.
pub proof fn the_first_observation_counts(h: HostView, p: Seq<u8>, i: int)
    ensures
        0 <= i < h.paths.len() && h.paths[i].0 == p && (forall|j: int|
            0 <= j < i ==> (#[trigger] h.paths[j]).0 != p) ==> h.facts(p) == h.paths[i].1,
        (forall|j: int| 0 <= j < h.paths.len() ==> (#[trigger] h.paths[j]).0 != p) ==> !h.facts(
            p,
        ).present && !h.facts(p).is_dir && !h.facts(p).writable && h.facts(p).canonical is None,
    decreases h.paths.len(),
{
    if h.paths.len() > 0 && h.paths[0].0 != p {
        let rest = HostView { paths: h.paths.skip(1), ..h };
        assert(forall|j: int|
            0 <= j < rest.paths.len() ==> #[trigger] rest.paths[j] == h.paths[j + 1]);
        the_first_observation_counts(rest, p, i - 1);
        if 0 < i < h.paths.len() {
            assert(rest.paths[i - 1] == h.paths[i]);
        }
    } else if h.paths.len() > 0 {
        assert(h.paths[0].0 == p);
    }
}

} // verus!
