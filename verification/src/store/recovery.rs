//! Rebuilding the store after a restart, from data files and their sidecars.

use crate::path_map::PathMap;
use crate::store::files::{file_name, file_name_of, with_extension, with_extension_of};
use crate::store::meta::{Meta, MetaView};
use crate::text::{
    copy_optional, ends_with, has_suffix, opt_text, same_text, texts, trim_suffix,
    without_suffixes,
};
use vstd::prelude::*;

verus! {

/// What a file in a lane directory is.
#[derive(Clone, Copy, Debug, PartialEq, Eq, Structural)]
pub enum EntryKind {
    /// A mark of the layout.
    Marker,
    /// A sidecar whose writing was cut short; it is removed.
    StaleTemp,
    /// The new file of a compaction; it is looked at with its data file.
    CompactTemp,
    /// A sidecar.
    Sidecar,
    /// A data file.
    Data,
}

/// What a file in a lane directory is.
pub open spec fn entry_kind(path: Seq<char>) -> EntryKind {
    let name = match file_name_of(path) {
        Some(name) => name,
        None => ""@,
    };
    if name == ".lanes"@ || name == ".lane"@ {
        EntryKind::Marker
    } else if ends_with(name, ".meta.tmp"@) {
        EntryKind::StaleTemp
    } else if ends_with(name, ".compact.tmp"@) {
        EntryKind::CompactTemp
    } else if ends_with(name, ".meta"@) {
        EntryKind::Sidecar
    } else {
        EntryKind::Data
    }
}

/// What a file in a lane directory is.
pub fn classify_entry(path: &str) -> (r: EntryKind)
    ensures
        r == entry_kind(path@),
{
    let name = match file_name(path) {
        Some(name) => name,
        None => "".to_owned(),
    };
    if same_text(name.as_str(), ".lanes") || same_text(name.as_str(), ".lane") {
        EntryKind::Marker
    } else if has_suffix(name.as_str(), ".meta.tmp") {
        EntryKind::StaleTemp
    } else if has_suffix(name.as_str(), ".compact.tmp") {
        EntryKind::CompactTemp
    } else if has_suffix(name.as_str(), ".meta") {
        EntryKind::Sidecar
    } else {
        EntryKind::Data
    }
}

/// The data file that a sidecar belongs to.
pub fn data_path_of(sidecar: &str) -> (r: String)
    ensures
        r@ == trim_suffix(sidecar@, ".meta"@),
{
    without_suffixes(sidecar, ".meta")
}

/// Where a sidecar that cannot be read as one is put aside. It is never removed.
pub fn quarantine_path(sidecar: &str) -> (r: String)
    ensures
        r@ == with_extension_of(sidecar@, "meta.corrupt"@),
{
    with_extension(sidecar, "meta.corrupt")
}

/// The new file of a compaction of a data file.
pub fn compact_path(data_path: &str) -> (r: String)
    ensures
        r@ == with_extension_of(data_path@, "compact.tmp"@),
{
    with_extension(data_path, "compact.tmp")
}

/// A sidecar and the data file it belongs to.
pub struct Sidecar {
    pub meta: Meta,
    pub data_path: String,
}

/// A sidecar and its data file as a mathematical value.
#[verifier::ext_equal]
pub struct SidecarView {
    pub meta: MetaView,
    pub data_path: Seq<char>,
}

impl View for Sidecar {
    type V = SidecarView;

    open spec fn view(&self) -> SidecarView {
        SidecarView { meta: self.meta@, data_path: self.data_path@ }
    }
}

/// Whether no sidecar, not even one put aside, belongs to a data file.
pub open spec fn is_orphan(
    sidecars: Map<Seq<char>, SidecarView>,
    quarantined: Seq<Seq<char>>,
    data_file: Seq<char>,
) -> bool {
    &&& forall|path: Seq<char>| #[trigger]
        sidecars.contains_key(path) ==> sidecars[path].data_path != data_file
    &&& !quarantined.contains(data_file)
}

/// The data files without a sidecar.
pub open spec fn orphans_of(
    sidecars: Map<Seq<char>, SidecarView>,
    quarantined: Seq<Seq<char>>,
    data_files: Seq<Seq<char>>,
) -> Seq<Seq<char>>
    decreases data_files.len(),
{
    if data_files.len() == 0 {
        Seq::empty()
    } else {
        let front = orphans_of(sidecars, quarantined, data_files.drop_last());
        if is_orphan(sidecars, quarantined, data_files.last()) {
            front.push(data_files.last())
        } else {
            front
        }
    }
}

fn check_orphan(
    sidecars: &PathMap<Sidecar>,
    quarantined: &Vec<String>,
    data_file: &str,
) -> (r: bool)
    requires
        sidecars.wf(),
    ensures
        r == is_orphan(sidecars@, texts(quarantined@), data_file@),
{
    let ghost aside = texts(quarantined@);
    let mut i: usize = 0;
    proof {
        sidecars.lemma_lists();
    }
    while i < sidecars.len()
        invariant
            sidecars.wf(),
            i <= sidecars.key_list().len(),
            aside == texts(quarantined@),
            forall|k: int|
                0 <= k < i ==> sidecars@[#[trigger] sidecars.key_list()[k]].data_path
                    != data_file@,
        decreases sidecars.key_list().len() - i,
    {
        proof {
            sidecars.lemma_lists();
        }
        let sidecar = sidecars.value_at(i);
        if same_text(sidecar.data_path.as_str(), data_file) {
            assert(sidecars@.contains_key(sidecars.key_list()[i as int]));
            return false;
        }
        i = i + 1;
    }
    assert forall|path: Seq<char>| #[trigger] sidecars@.contains_key(path) implies sidecars@[path].data_path
        != data_file@ by {
        sidecars.lemma_lists();
        let k = sidecars.key_list().index_of(path);
        assert(sidecars.key_list()[k] == path);
    }
    let mut j: usize = 0;
    while j < quarantined.len()
        invariant
            j <= quarantined@.len(),
            aside == texts(quarantined@),
            forall|k: int| 0 <= k < j ==> #[trigger] aside[k] != data_file@,
        decreases quarantined.len() - j,
    {
        assert(aside[j as int] == quarantined@[j as int]@);
        if same_text(quarantined[j].as_str(), data_file) {
            assert(aside.contains(data_file@));
            return false;
        }
        j = j + 1;
    }
    true
}

/// The data files without a sidecar. Those whose sidecar was put aside are kept.
pub fn orphans(
    sidecars: &PathMap<Sidecar>,
    quarantined: &Vec<String>,
    data_files: &Vec<String>,
) -> (r: Vec<String>)
    requires
        sidecars.wf(),
    ensures
        texts(r@) == orphans_of(sidecars@, texts(quarantined@), texts(data_files@)),
{
    let ghost all = texts(data_files@);
    let ghost aside = texts(quarantined@);
    let mut r: Vec<String> = Vec::new();
    let mut i: usize = 0;
    assert(all.take(0) =~= Seq::empty());
    assert(texts(r@) =~= Seq::empty());
    while i < data_files.len()
        invariant
            sidecars.wf(),
            all == texts(data_files@),
            aside == texts(quarantined@),
            i <= data_files@.len(),
            texts(r@) == orphans_of(sidecars@, aside, all.take(i as int)),
        decreases data_files.len() - i,
    {
        assert(all[i as int] == data_files@[i as int]@);
        assert(all.take(i + 1).drop_last() =~= all.take(i as int));
        assert(all.take(i + 1).last() == all[i as int]);
        if check_orphan(sidecars, quarantined, data_files[i].as_str()) {
            let ghost before = r@;
            r.push(data_files[i].clone());
            assert(texts(r@) =~= texts(before).push(all[i as int]));
        }
        i = i + 1;
    }
    assert(all.take(all.len() as int) =~= all);
    r
}

/// One stream to rebuild, and the stream that it reads through, if that was
/// rebuilt before it.
pub struct RecoveryStep {
    pub path: String,
    pub parent: Option<String>,
}

/// One stream to rebuild, as a mathematical value.
#[verifier::ext_equal]
pub struct StepOf {
    pub path: Seq<char>,
    pub parent: Option<Seq<char>>,
}

impl View for RecoveryStep {
    type V = StepOf;

    open spec fn view(&self) -> StepOf {
        StepOf { path: self.path@, parent: opt_text(self.parent) }
    }
}

/// The contents of several steps.
pub open spec fn step_list(steps: Seq<RecoveryStep>) -> Seq<StepOf> {
    steps.map_values(|step: RecoveryStep| step@)
}

/// Whether a stream is among the steps.
pub open spec fn rebuilds(steps: Seq<StepOf>, path: Seq<char>) -> bool {
    exists|i: int| 0 <= i < steps.len() && (#[trigger] steps[i]).path == path
}

/// Where each stream was forked from, and whether it inherits anything.
#[verifier::ext_equal]
pub struct Origin {
    pub forked_from: Option<Seq<char>>,
    pub inherits: bool,
}

/// The origins of the streams that have sidecars.
pub open spec fn origins_of(sidecars: Map<Seq<char>, SidecarView>) -> Map<Seq<char>, Origin> {
    sidecars.map_values(
        |sidecar: SidecarView|
            Origin {
                forked_from: sidecar.meta.forked_from,
                inherits: sidecar.meta.base_offset != 0,
            },
    )
}

/// The steps after one stream, and first what it was forked from, was added to
/// them, and whether it could be. A fork whose source is missing stands alone if
/// it inherits nothing, and is left out otherwise; so is a source that is still
/// being added, which only happens where sidecars name each other in a circle.
pub open spec fn steps_with(
    origins: Map<Seq<char>, Origin>,
    steps: Seq<StepOf>,
    path: Seq<char>,
    pending: Set<Seq<char>>,
) -> (Seq<StepOf>, bool)
    decreases origins.dom().difference(pending).len(),
    when origins.dom().finite()
    via steps_with_ends
{
    if rebuilds(steps, path) {
        (steps, true)
    } else if pending.contains(path) || !origins.contains_key(path) {
        (steps, false)
    } else {
        match origins[path].forked_from {
            None => (steps.push(StepOf { path, parent: None }), true),
            Some(source) => {
                let (before, found) = steps_with(origins, steps, source, pending.insert(path));
                if found {
                    (before.push(StepOf { path, parent: Some(source) }), true)
                } else if !origins[path].inherits {
                    (before.push(StepOf { path, parent: None }), true)
                } else {
                    (before, false)
                }
            },
        }
    }
}

#[via_fn]
proof fn steps_with_ends(
    origins: Map<Seq<char>, Origin>,
    steps: Seq<StepOf>,
    path: Seq<char>,
    pending: Set<Seq<char>>,
) {
    lemma_pending_grows(origins, path, pending);
}

proof fn lemma_pending_grows(
    origins: Map<Seq<char>, Origin>,
    path: Seq<char>,
    pending: Set<Seq<char>>,
)
    requires
        origins.dom().finite(),
    ensures
        origins.contains_key(path) && !pending.contains(path) ==> origins.dom().difference(
            pending.insert(path),
        ).len() < origins.dom().difference(pending).len(),
{
    let wide = origins.dom().difference(pending);
    let narrow = origins.dom().difference(pending.insert(path));
    if origins.contains_key(path) && !pending.contains(path) {
        assert(narrow =~= wide.remove(path));
        assert(wide.contains(path));
    }
}

/// The steps after each of several streams was added.
pub open spec fn steps_for(
    origins: Map<Seq<char>, Origin>,
    paths: Seq<Seq<char>>,
) -> Seq<StepOf>
    decreases paths.len(),
{
    if paths.len() == 0 {
        Seq::empty()
    } else {
        steps_with(
            origins,
            steps_for(origins, paths.drop_last()),
            paths.last(),
            Set::empty(),
        ).0
    }
}

fn has_step(steps: &Vec<RecoveryStep>, path: &str) -> (r: bool)
    ensures
        r == rebuilds(step_list(steps@), path@),
{
    let ghost all = step_list(steps@);
    let mut i: usize = 0;
    while i < steps.len()
        invariant
            i <= steps@.len(),
            all == step_list(steps@),
            forall|k: int| 0 <= k < i ==> (#[trigger] all[k]).path != path@,
        decreases steps.len() - i,
    {
        assert(all[i as int] == steps@[i as int]@);
        if same_text(steps[i].path.as_str(), path) {
            assert(all[i as int].path == path@);
            return true;
        }
        i = i + 1;
    }
    false
}

fn push_step(steps: &mut Vec<RecoveryStep>, path: &str, parent: Option<String>)
    ensures
        step_list(final(steps)@) == step_list(old(steps)@).push(
            StepOf { path: path@, parent: opt_text(parent) },
        ),
{
    let step = RecoveryStep { path: path.to_owned(), parent };
    let ghost before = steps@;
    steps.push(step);
    assert(step_list(steps@) =~= step_list(before).push(step@));
}

/// Add one stream, and first what it was forked from, to the steps.
fn add_steps(
    sidecars: &PathMap<Sidecar>,
    steps: &mut Vec<RecoveryStep>,
    path: &str,
    pending: &mut PathMap<bool>,
) -> (r: bool)
    requires
        sidecars.wf(),
        old(pending).wf(),
    ensures
        final(pending).wf(),
        final(pending)@.dom() == old(pending)@.dom(),
        (step_list(final(steps)@), r) == steps_with(
            origins_of(sidecars@),
            step_list(old(steps)@),
            path@,
            old(pending)@.dom(),
        ),
    decreases origins_of(sidecars@).dom().difference(old(pending)@.dom()).len(),
{
    let ghost origins = origins_of(sidecars@);
    proof {
        sidecars.lemma_lists();
        assert(origins.dom() =~= sidecars@.dom());
        assert(origins.dom().finite());
    }
    if has_step(steps, path) {
        return true;
    }
    if pending.contains(path) {
        return false;
    }
    let (source, inherits) = match sidecars.get(path) {
        Some(sidecar) => (copy_optional(&sidecar.meta.forked_from), sidecar.meta.base_offset != 0),
        None => {
            return false;
        },
    };
    let ghost origin = origins[path@];
    assert(origin.forked_from == opt_text(source));
    match source {
        None => {
            push_step(steps, path, None);
            true
        },
        Some(source) => {
            let ghost before = pending@.dom();
            pending.insert(path.to_owned(), true);
            proof {
                assert(pending@.dom() =~= before.insert(path@));
                lemma_pending_grows(origins, path@, before);
            }
            let found = add_steps(sidecars, steps, source.as_str(), pending);
            let _ = pending.remove(path);
            assert(pending@.dom() =~= before);
            if found {
                push_step(steps, path, Some(source));
                true
            } else if !inherits {
                push_step(steps, path, None);
                true
            } else {
                false
            }
        },
    }
}

/// The order in which streams are rebuilt: each after the one it was forked from.
pub fn recovery_order(sidecars: &PathMap<Sidecar>) -> (r: Vec<RecoveryStep>)
    requires
        sidecars.wf(),
    ensures
        step_list(r@) == steps_for(
            origins_of(sidecars@),
            crate::path_map::in_order(sidecars@.dom()),
        ),
{
    let ghost keys = sidecars.key_list();
    proof {
        sidecars.lemma_lists();
    }
    let mut steps: Vec<RecoveryStep> = Vec::new();
    let mut pending: PathMap<bool> = PathMap::new();
    let mut i: usize = 0;
    assert(keys.take(0) =~= Seq::empty());
    assert(step_list(steps@) =~= Seq::empty());
    assert(pending@.dom() =~= Set::empty());
    while i < sidecars.len()
        invariant
            sidecars.wf(),
            keys == sidecars.key_list(),
            i <= keys.len(),
            pending.wf(),
            pending@.dom() =~= Set::<Seq<char>>::empty(),
            step_list(steps@) == steps_for(origins_of(sidecars@), keys.take(i as int)),
        decreases keys.len() - i,
    {
        let path = sidecars.key_at(i);
        assert(keys.take(i + 1).drop_last() =~= keys.take(i as int));
        assert(keys.take(i + 1).last() == keys[i as int]);
        let _ = add_steps(sidecars, &mut steps, path.as_str(), &mut pending);
        i = i + 1;
    }
    assert(keys.take(keys.len() as int) =~= keys);
    steps
}

/// Whether following the sources of a stream leads, after `n` of them, to one
/// that is no fork.
pub open spec fn leads_home(origins: Map<Seq<char>, Origin>, path: Seq<char>, n: nat) -> bool
    decreases n,
{
    origins.contains_key(path) && match origins[path].forked_from {
        None => n == 0,
        Some(source) => n > 0 && leads_home(origins, source, (n - 1) as nat),
    }
}

proof fn lemma_one_way_home(origins: Map<Seq<char>, Origin>, path: Seq<char>, n: nat, m: nat)
    requires
        leads_home(origins, path, n),
        leads_home(origins, path, m),
    ensures
        n == m,
    decreases n,
{
    if let Some(source) = origins[path].forked_from {
        lemma_one_way_home(origins, source, (n - 1) as nat, (m - 1) as nat);
    }
}

/// Steps in which every source comes before its forks, no stream comes twice,
/// and streams whose sources lead home keep them.
pub open spec fn steps_in_order(origins: Map<Seq<char>, Origin>, steps: Seq<StepOf>) -> bool {
    &&& forall|i: int|
        0 <= i < steps.len() ==> {
            &&& origins.contains_key((#[trigger] steps[i]).path)
            &&& steps[i].parent matches Some(source) ==> origins[steps[i].path].forked_from
                == Some(source) && rebuilds(steps.take(i), source)
            &&& steps[i].parent is None && origins[steps[i].path].forked_from is Some
                ==> !origins[steps[i].path].inherits
        }
    &&& forall|i: int, j: int|
        0 <= i < j < steps.len() ==> (#[trigger] steps[i]).path != (#[trigger] steps[j]).path
    &&& forall|i: int, n: nat|
        0 <= i < steps.len() && #[trigger] leads_home(origins, (#[trigger] steps[i]).path, n)
            ==> steps[i].parent == origins[steps[i].path].forked_from
}

proof fn lemma_push_in_order(
    origins: Map<Seq<char>, Origin>,
    steps: Seq<StepOf>,
    step: StepOf,
)
    requires
        steps_in_order(origins, steps),
        !rebuilds(steps, step.path),
        origins.contains_key(step.path),
        step.parent matches Some(source) ==> origins[step.path].forked_from == Some(source)
            && rebuilds(steps, source),
        step.parent is None && origins[step.path].forked_from is Some
            ==> !origins[step.path].inherits && forall|n: nat|
            !#[trigger] leads_home(origins, step.path, n),
    ensures
        steps_in_order(origins, steps.push(step)),
{
    let next = steps.push(step);
    assert forall|i: int| 0 <= i < next.len() implies {
        &&& origins.contains_key((#[trigger] next[i]).path)
        &&& next[i].parent matches Some(source) ==> origins[next[i].path].forked_from == Some(
            source,
        ) && rebuilds(next.take(i), source)
        &&& next[i].parent is None && origins[next[i].path].forked_from is Some
            ==> !origins[next[i].path].inherits
    } by {
        if i < steps.len() {
            assert(next[i] == steps[i]);
            assert(next.take(i) =~= steps.take(i));
        } else {
            assert(next.take(i) =~= steps);
        }
    }
    assert forall|i: int, j: int| 0 <= i < j < next.len() implies (#[trigger] next[i]).path != (
    #[trigger] next[j]).path by {
        assert(next[i] == steps[i]);
        if j < steps.len() {
            assert(next[j] == steps[j]);
        }
    }
    assert forall|i: int, n: nat|
        0 <= i < next.len() && #[trigger] leads_home(
            origins,
            (#[trigger] next[i]).path,
            n,
        ) implies next[i].parent == origins[next[i].path].forked_from by {
        if i < steps.len() {
            assert(next[i] == steps[i]);
        }
    }
}

proof fn lemma_rebuilds_more(steps: Seq<StepOf>, more: Seq<StepOf>, path: Seq<char>)
    requires
        steps.len() <= more.len(),
        more.take(steps.len() as int) == steps,
        rebuilds(steps, path),
    ensures
        rebuilds(more, path),
{
    let i = choose|i: int| 0 <= i < steps.len() && (#[trigger] steps[i]).path == path;
    assert(more.take(steps.len() as int)[i] == more[i]);
    assert(more[i].path == path);
}

/// Adding a stream keeps the steps in order and adds to their end; a stream whose
/// sources lead home is always added.
proof fn lemma_steps_with(
    origins: Map<Seq<char>, Origin>,
    steps: Seq<StepOf>,
    path: Seq<char>,
    pending: Set<Seq<char>>,
)
    requires
        origins.dom().finite(),
        steps_in_order(origins, steps),
        forall|p: Seq<char>| #[trigger] pending.contains(p) ==> !rebuilds(steps, p),
        forall|p: Seq<char>, n: nat, k: nat|
            pending.contains(p) && #[trigger] leads_home(origins, path, n) && k <= n
                ==> !#[trigger] leads_home(origins, p, k),
    ensures
        ({
            let (next, found) = steps_with(origins, steps, path, pending);
            &&& steps_in_order(origins, next)
            &&& steps.len() <= next.len()
            &&& next.take(steps.len() as int) == steps
            &&& found ==> rebuilds(next, path)
            &&& forall|p: Seq<char>| #[trigger] pending.contains(p) ==> !rebuilds(next, p)
            &&& forall|n: nat| #[trigger] leads_home(origins, path, n) ==> found
        }),
    decreases origins.dom().difference(pending).len(),
{
    let (next, found) = steps_with(origins, steps, path, pending);
    if rebuilds(steps, path) {
        assert(next.take(steps.len() as int) =~= steps);
    } else if pending.contains(path) || !origins.contains_key(path) {
        assert(next.take(steps.len() as int) =~= steps);
        assert forall|n: nat| #[trigger] leads_home(origins, path, n) implies found by {
            assert(leads_home(origins, path, n));
        }
    } else {
        let inner = pending.insert(path);
        lemma_pending_grows(origins, path, pending);
        let step_alone = StepOf { path, parent: None };
        match origins[path].forked_from {
            None => {
                lemma_push_in_order(origins, steps, step_alone);
                assert(next[steps.len() as int].path == path);
                assert(next.take(steps.len() as int) =~= steps);
                lemma_absent_after_push(steps, step_alone, pending);
            },
            Some(source) => {
                assert forall|p: Seq<char>, n: nat, k: nat|
                    inner.contains(p) && #[trigger] leads_home(origins, source, n) && k
                        <= n implies !#[trigger] leads_home(origins, p, k) by {
                    assert(leads_home(origins, path, (n + 1) as nat));
                    if p == path && leads_home(origins, p, k) {
                        lemma_one_way_home(origins, path, k, (n + 1) as nat);
                    }
                }
                lemma_steps_with(origins, steps, source, inner);
                let (before, source_found) = steps_with(origins, steps, source, inner);
                assert(inner.contains(path));
                assert(!rebuilds(before, path));
                assert forall|p: Seq<char>| #[trigger] pending.contains(p) implies !rebuilds(
                    before,
                    p,
                ) by {
                    assert(inner.contains(p));
                }
                assert forall|n: nat| #[trigger] leads_home(origins, path, n) implies source_found by {
                    assert(leads_home(origins, source, (n - 1) as nat));
                }
                if source_found {
                    let step = StepOf { path, parent: Some(source) };
                    lemma_push_in_order(origins, before, step);
                    assert(next[before.len() as int].path == path);
                    assert(next.take(steps.len() as int) =~= steps);
                    lemma_absent_after_push(before, step, pending);
                } else if !origins[path].inherits {
                    assert forall|n: nat| !#[trigger] leads_home(origins, path, n) by {
                        if leads_home(origins, path, n) {
                            assert(leads_home(origins, source, (n - 1) as nat));
                        }
                    }
                    lemma_push_in_order(origins, before, step_alone);
                    assert(next[before.len() as int].path == path);
                    assert(next.take(steps.len() as int) =~= steps);
                    lemma_absent_after_push(before, step_alone, pending);
                } else {
                    assert(next.take(steps.len() as int) =~= steps);
                }
            },
        }
    }
}

proof fn lemma_absent_after_push(steps: Seq<StepOf>, step: StepOf, pending: Set<Seq<char>>)
    requires
        forall|p: Seq<char>| #[trigger] pending.contains(p) ==> !rebuilds(steps, p),
        !pending.contains(step.path),
    ensures
        forall|p: Seq<char>| #[trigger]
            pending.contains(p) ==> !rebuilds(steps.push(step), p),
{
    let next = steps.push(step);
    assert forall|p: Seq<char>| #[trigger] pending.contains(p) implies !rebuilds(next, p) by {
        if rebuilds(next, p) {
            let i = choose|i: int| 0 <= i < next.len() && (#[trigger] next[i]).path == p;
            if i < steps.len() {
                assert(steps[i].path == p);
            }
        }
    }
}

/// In whatever order the sidecars are looked at, every stream is rebuilt at most
/// once and after the one it reads through; a stream is only ever separated from
/// its source if it inherits nothing; and a stream whose sources lead to one that
/// is no fork is rebuilt, with its source.
pub proof fn law_recovery_keeps_forks(origins: Map<Seq<char>, Origin>, paths: Seq<Seq<char>>)
    requires
        origins.dom().finite(),
    ensures
        steps_in_order(origins, steps_for(origins, paths)),
        forall|path: Seq<char>, n: nat|
            #![trigger paths.contains(path), leads_home(origins, path, n)]
            paths.contains(path) && leads_home(origins, path, n) ==> rebuilds(
                steps_for(origins, paths),
                path,
            ),
    decreases paths.len(),
{
    if paths.len() > 0 {
        let front = paths.drop_last();
        law_recovery_keeps_forks(origins, front);
        let before = steps_for(origins, front);
        lemma_steps_with(origins, before, paths.last(), Set::empty());
        let next = steps_for(origins, paths);
        assert forall|path: Seq<char>, n: nat|
            #![trigger paths.contains(path), leads_home(origins, path, n)]
            paths.contains(path) && leads_home(origins, path, n) implies rebuilds(next, path) by {
            let i = paths.index_of(path);
            if i < front.len() {
                assert(front[i] == path);
                assert(front.contains(path));
                lemma_rebuilds_more(before, next, path);
            }
        }
    }
}

/// The end of its name says what a file in a lane directory is.
pub proof fn law_names_tell_files_apart(path: Seq<char>, stem: Seq<char>)
    ensures
        file_name_of(path) == Some(".lanes"@) ==> entry_kind(path) == EntryKind::Marker,
        file_name_of(path) == Some(".lane"@) ==> entry_kind(path) == EntryKind::Marker,
        file_name_of(path) == Some(stem + ".meta.tmp"@) ==> entry_kind(path)
            == EntryKind::StaleTemp,
        file_name_of(path) == Some(stem + ".compact.tmp"@) ==> entry_kind(path)
            == EntryKind::CompactTemp,
        file_name_of(path) == Some(stem + ".meta"@) ==> entry_kind(path) == EntryKind::Sidecar,
        file_name_of(path) == Some(stem) && stem.len() > 0 && stem.last() != 'a' && stem.last()
            != 'p' && stem.last() != 'e' && stem.last() != 's' ==> entry_kind(path)
            == EntryKind::Data,
{
    reveal_strlit(".lanes");
    reveal_strlit(".lane");
    reveal_strlit(".meta.tmp");
    reveal_strlit(".compact.tmp");
    reveal_strlit(".meta");
    if let Some(name) = file_name_of(path) {
        let n = name.len();
        if ends_with(name, ".meta.tmp"@) {
            assert(name.skip(n - 9)[8] == name[n - 1]);
            assert(name.skip(n - 9)[4] == name[n - 5]);
        }
        if ends_with(name, ".compact.tmp"@) {
            assert(name.skip(n - 12)[11] == name[n - 1]);
            assert(name.skip(n - 12)[7] == name[n - 5]);
        }
        if ends_with(name, ".meta"@) {
            assert(name.skip(n - 5)[4] == name[n - 1]);
        }
        assert((stem + ".meta.tmp"@).skip(stem.len() as int) =~= ".meta.tmp"@);
        assert((stem + ".compact.tmp"@).skip(stem.len() as int) =~= ".compact.tmp"@);
        assert((stem + ".meta"@).skip(stem.len() as int) =~= ".meta"@);
        assert((stem + ".meta.tmp"@).last() == 'p');
        assert((stem + ".compact.tmp"@).last() == 'p');
        assert((stem + ".compact.tmp"@)[stem.len() as int + 7] == 't');
        assert((stem + ".meta.tmp"@)[stem.len() as int + 4] == 'a');
        assert((stem + ".meta"@).last() == 'a');
    }
}

/// The sidecar of a data file leads back to it.
pub proof fn law_sidecar_leads_to_its_data(
    file: &str,
    sidecar: String,
    named: &str,
    data: String,
)
    requires
        call_ensures(crate::store::naming::meta_path, (file,), sidecar),
        named@ == sidecar@,
        call_ensures(data_path_of, (named,), data),
        !ends_with(file@, ".meta"@),
    ensures
        data@ == file@,
{
    reveal_strlit(".meta");
    let suffix = ".meta"@;
    let whole = file@ + suffix;
    assert(whole.skip(file@.len() as int) =~= suffix);
    assert(whole.take(file@.len() as int) =~= file@);
    assert(trim_suffix(file@, suffix) == file@);
}

} // verus!
