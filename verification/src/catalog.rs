//! The catalog of episodes that can be shown, and the search for an episode
//! through the root directories.
//!
//! The catalog is built once, when the server starts, from the images found
//! below the roots. An episode that is asked for by its key is looked up in
//! each root in turn; the roots come in order of priority.

use vstd::prelude::*;

use crate::errors::ErrorKind;
use crate::selector::{pick, pick_unseen};
use crate::structs::{same_key, EpisodeKey, FlowType};
use crate::surface::{session_ratings, FlowState, Surface, SurfaceData};
use crate::text::{chars_of, push_text, string_of};
use crate::utils::{
    decode_path, encode_key, extract_path, file_path, join_path, session_file_name,
};

verus! {

// ---------------------------------------------------------------------------
// The catalog
// ---------------------------------------------------------------------------

/// The episodes that can be shown, in the order in which they were found.
/// No two of them have the same key.
pub struct Catalog {
    entries: Vec<SurfaceData>,
}

/// The keys of a list of episodes.
pub open spec fn keys_of(surfaces: Seq<Surface>) -> Seq<EpisodeKey> {
    Seq::new(surfaces.len(), |i: int| surfaces[i].key)
}

/// A list of episodes with one more at its end, unless an episode of the
/// same key is in the list already: then the list stays as it is.
pub open spec fn with_surface(surfaces: Seq<Surface>, added: Surface) -> Seq<Surface> {
    if keys_of(surfaces).contains(added.key) {
        surfaces
    } else {
        surfaces.push(added)
    }
}

impl View for Catalog {
    type V = Seq<Surface>;

    closed spec fn view(&self) -> Seq<Surface> {
        Seq::new(self.entries@.len(), |i: int| self.entries@[i]@)
    }
}

impl Catalog {
    /// Whether the catalog is sound: no two episodes have the same key.
    pub open spec fn wf(&self) -> bool {
        keys_of(self@).no_duplicates()
    }

    /// The empty catalog.
    pub fn new() -> (catalog: Catalog)
        ensures
            catalog.wf(),
            catalog@ == Seq::<Surface>::empty(),
    {
        let catalog = Catalog { entries: Vec::new() };
        assert(catalog@ =~= Seq::<Surface>::empty());
        catalog
    }

    /// How many episodes the catalog lists.
    pub fn len(&self) -> (n: usize)
        ensures
            n == self@.len(),
    {
        self.entries.len()
    }

    /// The episode at place `i`, or `None` if there are not that many.
    pub fn get(&self, i: usize) -> (r: Option<&SurfaceData>)
        ensures
            match r {
                Some(surface) => i < self@.len() && surface@ == self@[i as int],
                None => i >= self@.len(),
            },
    {
        if i < self.entries.len() {
            Some(&self.entries[i])
        } else {
            None
        }
    }

    /// The place of the episode `key` in the catalog, if it is listed.
    pub fn position(&self, key: &EpisodeKey) -> (r: Option<usize>)
        ensures
            match r {
                Some(i) => i < self@.len() && self@[i as int].key == *key,
                None => !keys_of(self@).contains(*key),
            },
    {
        let mut i: usize = 0;
        while i < self.entries.len()
            invariant
                i <= self.entries.len(),
                forall|j: int| 0 <= j < i ==> keys_of(self@)[j] != *key,
            decreases self.entries.len() - i,
        {
            let found: EpisodeKey = self.entries[i].key();
            if same_key(&found, key) {
                return Some(i);
            }
            i += 1;
        }
        None
    }

    /// Whether the catalog lists the episode `key`.
    pub fn contains(&self, key: &EpisodeKey) -> (r: bool)
        ensures
            r == keys_of(self@).contains(*key),
    {
        match self.position(key) {
            Some(i) => {
                assert(keys_of(self@)[i as int] == *key);
                true
            },
            None => false,
        }
    }

    /// Lists one more episode, at the end. Where the catalog already lists an
    /// episode under the same key, that one stays and `surface` is dropped:
    /// what was found first wins. Says whether `surface` was listed.
    pub fn add(&mut self, surface: SurfaceData) -> (added: bool)
        requires
            old(self).wf(),
        ensures
            final(self).wf(),
            final(self)@ == with_surface(old(self)@, surface@),
            added == !keys_of(old(self)@).contains(surface@.key),
    {
        let key: EpisodeKey = surface.key();
        if self.contains(&key) {
            false
        } else {
            let ghost before = self@;
            let ghost added = surface@;
            self.entries.push(surface);
            assert(self@ =~= before.push(added));
            assert(keys_of(self@) =~= keys_of(before).push(key));
            true
        }
    }

    /// The keys of the episodes, in the order of the catalog.
    pub fn keys(&self) -> (keys: Vec<EpisodeKey>)
        ensures
            keys@ == keys_of(self@),
    {
        let mut keys: Vec<EpisodeKey> = Vec::new();
        let mut i: usize = 0;
        while i < self.entries.len()
            invariant
                i <= self.entries.len(),
                keys@ == keys_of(self@).take(i as int),
            decreases self.entries.len() - i,
        {
            keys.push(self.entries[i].key());
            assert(keys_of(self@).take(i + 1) =~= keys_of(self@).take(i as int).push(
                keys_of(self@)[i as int],
            ));
            i += 1;
        }
        assert(keys_of(self@).take(self.entries.len() as int) =~= keys_of(self@));
        keys
    }

    /// Picks, at random, an episode of the catalog that is not in `seen`.
    /// Fails with `Exhausted` when there is none left.
    pub fn pick_unseen(&self, seen: &Vec<EpisodeKey>) -> (r: Result<EpisodeKey, ErrorKind>)
        ensures
            exists|draw: nat| r == #[trigger] pick(keys_of(self@), seen@, draw),
            r matches Ok(key) ==> keys_of(self@).contains(key) && !seen@.contains(key),
            r matches Err(e) ==> e == ErrorKind::Exhausted,
            r.is_err() <==> forall|i: int|
                0 <= i < self@.len() ==> seen@.contains(#[trigger] keys_of(self@)[i]),
    {
        let keys: Vec<EpisodeKey> = self.keys();
        pick_unseen(&keys, seen)
    }
}

// ---------------------------------------------------------------------------
// Building the catalog from what a scan found
// ---------------------------------------------------------------------------

/// One image that a scan found: its path, and the states that the session
/// file beside it was parsed into.
pub struct Scanned {
    /// The path of the image.
    pub path: String,
    /// The states of the recorded session.
    pub states: Vec<FlowState>,
}

/// An image that a scan found, as mathematical content.
pub open spec fn scanned_surface(item: Scanned) -> Result<Surface, ErrorKind> {
    match decode_path(item.path@) {
        None => Err(ErrorKind::Format),
        Some(key) => match session_ratings(item.states@) {
            None => Err(ErrorKind::Parse),
            Some(ratings) => Ok(Surface { key, ratings }),
        },
    }
}

/// The catalog that the images of a scan make, in the order in which they
/// were found. The first image that cannot be read makes the whole scan
/// fail: no catalog is made of the rest.
pub open spec fn scan_of(items: Seq<Scanned>) -> Result<Seq<Surface>, ErrorKind>
    decreases items.len(),
{
    if items.len() == 0 {
        Ok(Seq::empty())
    } else {
        match scan_of(items.drop_last()) {
            Err(e) => Err(e),
            Ok(before) => match scanned_surface(items.last()) {
                Err(e) => Err(e),
                Ok(surface) => Ok(with_surface(before, surface)),
            },
        }
    }
}

/// A scan fails as a prefix of it fails.
proof fn lemma_scan_fails(items: Seq<Scanned>, k: int)
    requires
        0 <= k <= items.len(),
        scan_of(items.take(k)).is_err(),
    ensures
        scan_of(items) == scan_of(items.take(k)),
    decreases items.len() - k,
{
    if k == items.len() {
        assert(items.take(k) =~= items);
    } else {
        assert(items.drop_last().take(k) =~= items.take(k));
        lemma_scan_fails(items.drop_last(), k);
    }
}

/// The path of the session file that lies beside a file: the path of the
/// file up to its last `/`, then the flow token and `.flow`.
pub open spec fn beside(path: Seq<char>, flow: FlowType) -> Seq<char>
    decreases path.len(),
{
    if path.len() == 0 || path.last() == '/' {
        path + session_file_name(flow)
    } else {
        beside(path.drop_last(), flow)
    }
}

/// The path of the session file of an episode, given the path of a file in
/// the episode's directory, such as its image.
pub fn session_beside(path: &str, flow: FlowType) -> (session: String)
    ensures
        session@ == beside(path@, flow),
{
    let cs: Vec<char> = chars_of(path);
    let mut end: usize = cs.len();
    assert(cs@.take(end as int) =~= cs@);
    while end > 0 && cs[end - 1] != '/'
        invariant
            end <= cs.len(),
            beside(cs@, flow) == beside(cs@.take(end as int), flow),
        decreases end,
    {
        assert(cs@.take(end as int).drop_last() =~= cs@.take(end - 1));
        end -= 1;
    }
    let mut dir: Vec<char> = Vec::new();
    let mut i: usize = 0;
    while i < end
        invariant
            i <= end <= cs.len(),
            dir@ == cs@.take(i as int),
        decreases end - i,
    {
        dir.push(cs[i]);
        assert(cs@.take(i + 1) =~= cs@.take(i as int).push(cs@[i as int]));
        i += 1;
    }
    let mut out: String = string_of(&dir);
    push_text(&mut out, flow.as_str());
    push_text(&mut out, ".flow");
    assert(out@ =~= cs@.take(end as int) + session_file_name(flow));
    out
}

/// The session file beside a file in a directory lies in that directory.
proof fn lemma_beside_in_directory(dir: Seq<char>, leaf: Seq<char>, flow: FlowType)
    requires
        dir.len() == 0 || dir.last() == '/',
        !leaf.contains('/'),
    ensures
        beside(dir + leaf, flow) == dir + session_file_name(flow),
    decreases leaf.len(),
{
    if leaf.len() == 0 {
        assert(dir + leaf =~= dir);
    } else {
        assert(leaf.contains(leaf.last())) by {
            assert(leaf[leaf.len() - 1] == leaf.last());
        }
        assert((dir + leaf).drop_last() =~= dir + leaf.drop_last());
        assert forall|i: int| 0 <= i < leaf.drop_last().len() implies leaf.drop_last()[i]
            != '/' by {
            assert(leaf.contains(leaf[i]));
        }
        lemma_beside_in_directory(dir, leaf.drop_last(), flow);
    }
}

/// The session file beside any file of an episode is the session file of
/// that episode: a scan that finds the image of an episode reads the same
/// session file as a search for the episode by its key.
pub proof fn lemma_session_beside_file(root: Seq<char>, key: EpisodeKey, leaf: Seq<char>)
    requires
        !leaf.contains('/'),
    ensures
        beside(file_path(root, key, leaf), key.1) == file_path(
            root,
            key,
            session_file_name(key.1),
        ),
{
    let dir = join_path(root, encode_key(key) + seq!['/']);
    assert(dir.last() == '/');
    assert(file_path(root, key, leaf) =~= dir + leaf);
    assert(file_path(root, key, session_file_name(key.1)) =~= dir + session_file_name(key.1));
    lemma_beside_in_directory(dir, leaf, key.1);
}

impl Catalog {
    /// Builds the catalog from the images that a scan of the roots found,
    /// in the order in which they were found. The key of each episode is
    /// read from the path of its image, and its ratings from the states of
    /// its session. Where two images have the same key, the first is listed.
    ///
    /// Fails as soon as one image cannot be read, with `Format` for a path
    /// that holds no key and with `Parse` for a session without ratings; no
    /// catalog is made then.
    pub fn scan(items: &Vec<Scanned>) -> (r: Result<Catalog, ErrorKind>)
        ensures
            match r {
                Ok(catalog) => catalog.wf() && scan_of(items@) == Ok::<Seq<Surface>, ErrorKind>(
                    catalog@,
                ),
                Err(e) => scan_of(items@) == Err::<Seq<Surface>, ErrorKind>(e),
            },
    {
        let mut catalog: Catalog = Catalog::new();
        let mut i: usize = 0;
        assert(items@.take(0) =~= Seq::<Scanned>::empty());
        while i < items.len()
            invariant
                i <= items.len(),
                catalog.wf(),
                scan_of(items@.take(i as int)) == Ok::<Seq<Surface>, ErrorKind>(catalog@),
            decreases items.len() - i,
        {
            let ghost upto = items@.take(i + 1);
            assert(upto.drop_last() =~= items@.take(i as int));
            assert(upto.last() == items@[i as int]);
            let item: &Scanned = &items[i];
            let key: EpisodeKey = match extract_path(item.path.as_str()) {
                Ok(key) => key,
                Err(e) => {
                    proof {
                        lemma_scan_fails(items@, i + 1);
                    }
                    return Err(e);
                },
            };
            let surface: SurfaceData = match SurfaceData::from_flow_file(
                key.0,
                key.1,
                key.2,
                &item.states,
            ) {
                Ok(surface) => surface,
                Err(e) => {
                    proof {
                        lemma_scan_fails(items@, i + 1);
                    }
                    return Err(e);
                },
            };
            let _ = catalog.add(surface);
            i += 1;
        }
        assert(items@.take(items.len() as int) =~= items@);
        Ok(catalog)
    }
}

// ---------------------------------------------------------------------------
// Looking an episode up in the roots
// ---------------------------------------------------------------------------

/// What came of looking for an episode in one root.
#[derive(Copy, Clone, PartialEq, Eq, Hash, Debug, Structural)]
pub enum ProbeOutcome {
    /// The episode is there and could be read.
    Found,
    /// The root has no such episode.
    Missing,
    /// The episode is there and could not be read: for lack of permission,
    /// or because its session file is malformed.
    Failed,
}

/// What a look into one root came to, given how reading the episode there
/// failed, if it did. An episode that was read is found. A root where the
/// episode does not exist misses it. Every other failure, a denied read or a
/// malformed session file among them, counts as a failed look.
pub open spec fn outcome_of(failure: Option<ErrorKind>) -> ProbeOutcome {
    match failure {
        None => ProbeOutcome::Found,
        Some(ErrorKind::NotFound) => ProbeOutcome::Missing,
        Some(_) => ProbeOutcome::Failed,
    }
}

/// What a look into one root came to, given how reading the episode there
/// failed, or `None` if it was read.
pub fn probe_outcome(failure: Option<ErrorKind>) -> (outcome: ProbeOutcome)
    ensures
        outcome == outcome_of(failure),
{
    match failure {
        None => ProbeOutcome::Found,
        Some(ErrorKind::NotFound) => ProbeOutcome::Missing,
        Some(_) => ProbeOutcome::Failed,
    }
}

/// What to do next when looking for an episode.
#[derive(Copy, Clone, PartialEq, Eq, Hash, Debug, Structural)]
pub enum ResolveStep {
    /// Look in the root of this number.
    Probe(usize),
    /// The search is over: the episode is taken from the root of this
    /// number.
    Found(usize),
    /// The search is over: there is no such episode.
    NotFound,
}

/// The first step of a search through `roots` roots.
pub open spec fn first_step(roots: nat) -> ResolveStep {
    if roots > 0 {
        ResolveStep::Probe(0)
    } else {
        ResolveStep::NotFound
    }
}

/// The step that follows the look into root `probed`. An episode that was
/// found ends the search. A root without the episode sends the search on to
/// the next root, if there is one. A failure ends the search at once: the
/// roots after it are not looked into.
pub open spec fn next_step(roots: nat, probed: usize, outcome: ProbeOutcome) -> ResolveStep {
    match outcome {
        ProbeOutcome::Found => ResolveStep::Found(probed),
        ProbeOutcome::Failed => ResolveStep::NotFound,
        ProbeOutcome::Missing => if probed + 1 < roots && probed < usize::MAX {
            ResolveStep::Probe((probed + 1) as usize)
        } else {
            ResolveStep::NotFound
        },
    }
}

/// How many roots a search still has before it, at most.
pub open spec fn roots_ahead(roots: nat, step: ResolveStep) -> nat {
    match step {
        ResolveStep::Probe(i) => if i < roots {
            (roots - i) as nat
        } else {
            0
        },
        _ => 0,
    }
}

/// Where a search ends that stands at `step`, when looking into root `i`
/// comes to `outcomes[i]`.
pub open spec fn settle(outcomes: Seq<ProbeOutcome>, step: ResolveStep) -> ResolveStep
    decreases roots_ahead(outcomes.len(), step),
{
    match step {
        ResolveStep::Probe(i) => if i < outcomes.len() {
            settle(outcomes, next_step(outcomes.len(), i, outcomes[i as int]))
        } else {
            ResolveStep::NotFound
        },
        _ => step,
    }
}

/// Where the search for an episode ends, when looking into root `i` comes
/// to `outcomes[i]`.
pub open spec fn resolution(outcomes: Seq<ProbeOutcome>) -> ResolveStep {
    settle(outcomes, first_step(outcomes.len()))
}

/// The first step of a search through `roots` roots: to look into the first
/// root, or to give up at once if there is no root.
pub fn first_probe(roots: usize) -> (step: ResolveStep)
    ensures
        step == first_step(roots as nat),
{
    if roots > 0 {
        ResolveStep::Probe(0)
    } else {
        ResolveStep::NotFound
    }
}

/// The step that follows the look into root `probed` of `roots` roots, which
/// came to `outcome`.
pub fn next_probe(roots: usize, probed: usize, outcome: ProbeOutcome) -> (step: ResolveStep)
    ensures
        step == next_step(roots as nat, probed, outcome),
{
    match outcome {
        ProbeOutcome::Found => ResolveStep::Found(probed),
        ProbeOutcome::Failed => ResolveStep::NotFound,
        ProbeOutcome::Missing => {
            if probed < usize::MAX && probed + 1 < roots {
                ResolveStep::Probe(probed + 1)
            } else {
                ResolveStep::NotFound
            }
        },
    }
}

/// The first root from `i` on that does not miss, or the number of roots if
/// they all miss.
pub open spec fn first_decided(outcomes: Seq<ProbeOutcome>, i: int) -> int
    decreases outcomes.len() - i,
{
    if i < 0 || i >= outcomes.len() {
        outcomes.len() as int
    } else if outcomes[i] != ProbeOutcome::Missing {
        i
    } else {
        first_decided(outcomes, i + 1)
    }
}

/// Every root from `i` up to the first that does not miss misses, and
/// a root that does not miss with only misses from `i` up to it is that
/// first one.
proof fn lemma_first_decided(outcomes: Seq<ProbeOutcome>, i: int, k: int)
    requires
        0 <= i <= k <= outcomes.len(),
        forall|j: int| i <= j < k ==> outcomes[j] == ProbeOutcome::Missing,
        k < outcomes.len() ==> outcomes[k] != ProbeOutcome::Missing,
    ensures
        first_decided(outcomes, i) == k,
    decreases k - i,
{
    if i < k {
        lemma_first_decided(outcomes, i + 1, k);
    }
}

/// A search that stands before root `i` ends at the first root from `i` on
/// that does not miss: in that root if the episode was found there, and
/// without an episode if the look into it failed or if there is no such
/// root.
proof fn lemma_settle(outcomes: Seq<ProbeOutcome>, i: int)
    requires
        0 <= i < outcomes.len(),
        outcomes.len() <= usize::MAX,
    ensures
        settle(outcomes, ResolveStep::Probe(i as usize)) == ({
            let k = first_decided(outcomes, i);
            if k < outcomes.len() && outcomes[k] == ProbeOutcome::Found {
                ResolveStep::Found(k as usize)
            } else {
                ResolveStep::NotFound
            }
        }),
        i <= first_decided(outcomes, i) <= outcomes.len(),
    decreases outcomes.len() - i,
{
    let here = ResolveStep::Probe(i as usize);
    let next = next_step(outcomes.len(), i as usize, outcomes[i]);
    assert(settle(outcomes, here) == settle(outcomes, next));
    match outcomes[i] {
        ProbeOutcome::Found => {
            assert(settle(outcomes, next) == ResolveStep::Found(i as usize));
        },
        ProbeOutcome::Failed => {
            assert(settle(outcomes, next) == ResolveStep::NotFound);
        },
        ProbeOutcome::Missing => {
            if i + 1 < outcomes.len() {
                lemma_settle(outcomes, i + 1);
            } else {
                assert(settle(outcomes, next) == ResolveStep::NotFound);
                assert(first_decided(outcomes, i + 1) == outcomes.len());
            }
        },
    }
}

/// The roots are tried in their order and the first that has the episode
/// wins: when every root before `k` is without the episode, the search ends
/// in root `k` exactly if the episode was found there. In particular an
/// episode that the first root has is taken from the first root, whatever
/// the others hold. A look that fails ends the search without an episode,
/// however many roots come after it.
pub proof fn lemma_first_root_wins(outcomes: Seq<ProbeOutcome>, k: int)
    requires
        outcomes.len() <= usize::MAX,
        0 <= k < outcomes.len(),
        forall|j: int| 0 <= j < k ==> outcomes[j] == ProbeOutcome::Missing,
    ensures
        outcomes[k] == ProbeOutcome::Found <==> resolution(outcomes) == ResolveStep::Found(
            k as usize,
        ),
        outcomes[k] == ProbeOutcome::Failed ==> resolution(outcomes) == ResolveStep::NotFound,
{
    lemma_settle(outcomes, 0);
    if outcomes[k] != ProbeOutcome::Missing {
        lemma_first_decided(outcomes, 0, k);
    } else {
        let d = first_decided(outcomes, 0);
        if d == k {
            lemma_first_decided_is_decided(outcomes, 0);
        }
    }
}

/// The first root that does not miss does not miss.
proof fn lemma_first_decided_is_decided(outcomes: Seq<ProbeOutcome>, i: int)
    requires
        0 <= i <= outcomes.len(),
    ensures
        first_decided(outcomes, i) < outcomes.len() ==> outcomes[first_decided(outcomes, i)]
            != ProbeOutcome::Missing,
    decreases outcomes.len() - i,
{
    if i < outcomes.len() && outcomes[i] == ProbeOutcome::Missing {
        lemma_first_decided_is_decided(outcomes, i + 1);
    }
}

/// A search through roots that all miss ends without an episode, and so
/// does a search through no roots.
pub proof fn lemma_all_missing(outcomes: Seq<ProbeOutcome>)
    requires
        outcomes.len() <= usize::MAX,
        forall|j: int| 0 <= j < outcomes.len() ==> outcomes[j] == ProbeOutcome::Missing,
    ensures
        resolution(outcomes) == ResolveStep::NotFound,
{
    if outcomes.len() > 0 {
        lemma_settle(outcomes, 0);
        lemma_first_decided(outcomes, 0, outcomes.len() as int);
    }
}

/// The root from which an episode is taken, when looking into root `i`
/// comes to `outcomes[i]`: the first root that has it, provided that every
/// root before it is without it. Fails with `NotFound` when no root has the
/// episode, and when a look fails before the episode is found.
pub fn resolve(outcomes: &Vec<ProbeOutcome>) -> (r: Result<usize, ErrorKind>)
    ensures
        r == match resolution(outcomes@) {
            ResolveStep::Found(root) => Ok::<usize, ErrorKind>(root),
            _ => Err::<usize, ErrorKind>(ErrorKind::NotFound),
        },
{
    let roots: usize = outcomes.len();
    let mut step: ResolveStep = first_probe(roots);
    loop
        invariant
            roots == outcomes.len(),
            settle(outcomes@, step) == resolution(outcomes@),
        decreases roots_ahead(roots as nat, step),
    {
        match step {
            ResolveStep::Probe(i) => {
                if i < roots {
                    step = next_probe(roots, i, outcomes[i]);
                } else {
                    return Err(ErrorKind::NotFound);
                }
            },
            ResolveStep::Found(root) => {
                return Ok(root);
            },
            ResolveStep::NotFound => {
                return Err(ErrorKind::NotFound);
            },
        }
    }
}

} // verus!
