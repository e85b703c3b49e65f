//! The streams that subscriptions see, and how they are linked to them.

use crate::path_map::{in_order, Duplicate, PathMap};
use crate::store::offset::{format_offset, offset_text};
use crate::subscriptions::paths::{
    absolute_path, absolute_stream_path, relative_path, relative_stream_path,
};
use crate::text::texts;
use vstd::prelude::*;

verus! {

/// What subscriptions need to know of one stream.
#[derive(Clone, Copy)]
pub struct StreamStatus {
    pub id: u64,
    pub tail_bytes: u64,
    pub fenced: bool,
    pub expired: bool,
    pub soft_deleted: bool,
}

impl View for StreamStatus {
    type V = StreamStatus;

    open spec fn view(&self) -> StreamStatus {
        *self
    }
}

impl StreamStatus {
    /// Neither on its way out nor gone.
    pub open spec fn live(self) -> bool {
        !self.fenced && !self.expired && !self.soft_deleted
    }
}

/// The streams of a store by absolute path.
pub type StreamTable = PathMap<StreamStatus>;

/// The live stream at a path below a root.
pub open spec fn live_at(
    table: Map<Seq<char>, StreamStatus>,
    root: Seq<char>,
    relative: Seq<char>,
) -> Option<StreamStatus> {
    let path = absolute_path(root, relative);
    if table.contains_key(path) && table[path].live() {
        Some(table[path])
    } else {
        None
    }
}

/// The identity of the live stream at a path below a root.
pub open spec fn id_at(
    table: Map<Seq<char>, StreamStatus>,
    root: Seq<char>,
    relative: Seq<char>,
) -> Option<u64> {
    match live_at(table, root, relative) {
        Some(status) => Some(status.id),
        None => None,
    }
}

/// Where the stream at a path below a root ends; the beginning if there is none.
pub open spec fn tail_at(
    table: Map<Seq<char>, StreamStatus>,
    root: Seq<char>,
    relative: Seq<char>,
) -> Seq<char> {
    match live_at(table, root, relative) {
        Some(status) => offset_text(status.tail_bytes),
        None => offset_text(0),
    }
}

/// The names below a root of the live streams among `paths`, in their order.
pub open spec fn listed(
    paths: Seq<Seq<char>>,
    table: Map<Seq<char>, StreamStatus>,
    root: Seq<char>,
) -> Seq<Seq<char>>
    decreases paths.len(),
{
    if paths.len() == 0 {
        Seq::empty()
    } else {
        let front = listed(paths.drop_last(), table, root);
        match relative_path(root, paths.last()) {
            Some(relative) => if table[paths.last()].live() {
                front.push(relative)
            } else {
                front
            },
            None => front,
        }
    }
}

/// A name is listed exactly if a live stream has it below the root.
pub proof fn law_listed_streams_are_live(
    paths: Seq<Seq<char>>,
    table: Map<Seq<char>, StreamStatus>,
    root: Seq<char>,
    name: Seq<char>,
)
    ensures
        listed(paths, table, root).contains(name) <==> exists|i: int|
            0 <= i < paths.len() && table[#[trigger] paths[i]].live() && relative_path(
                root,
                paths[i],
            ) == Some(name),
    decreases paths.len(),
{
    if paths.len() > 0 {
        let last = paths.last();
        let front = listed(paths.drop_last(), table, root);
        law_listed_streams_are_live(paths.drop_last(), table, root, name);
        let whole = listed(paths, table, root);
        if whole.contains(name) {
            let k = choose|k: int| 0 <= k < whole.len() && whole[k] == name;
            if k < front.len() {
                assert(front[k] == name);
                let i = choose|i: int|
                    0 <= i < paths.drop_last().len() && table[#[trigger] paths.drop_last()[i]].live()
                        && relative_path(root, paths.drop_last()[i]) == Some(name);
                assert(paths[i] == paths.drop_last()[i]);
            } else {
                assert(paths[paths.len() - 1] == last);
            }
        }
        if exists|i: int|
            0 <= i < paths.len() && table[#[trigger] paths[i]].live() && relative_path(
                root,
                paths[i],
            ) == Some(name) {
            let i = choose|i: int|
                0 <= i < paths.len() && table[#[trigger] paths[i]].live() && relative_path(
                    root,
                    paths[i],
                ) == Some(name);
            if i < paths.len() - 1 {
                assert(paths.drop_last()[i] == paths[i]);
                let k = choose|k: int| 0 <= k < front.len() && front[k] == name;
                assert(whole[k] == name);
            } else {
                assert(whole[front.len() as int] == name);
            }
        }
    }
}

/// The live stream at a path below a root: its identity and where it ends.
pub fn live_stream_metadata(table: &StreamTable, stream_root: &str, relative: &str) -> (r: Option<
    (u64, String),
>)
    requires
        table.wf(),
    ensures
        match r {
            Some((id, tail)) => {
                &&& live_at(table@, stream_root@, relative@) is Some
                &&& id_at(table@, stream_root@, relative@) == Some(id)
                &&& tail@ == tail_at(table@, stream_root@, relative@)
            },
            None => live_at(table@, stream_root@, relative@) is None,
        },
{
    let path = absolute_stream_path(stream_root, relative);
    match table.get(path.as_str()) {
        Some(status) => if status.fenced || status.expired || status.soft_deleted {
            None
        } else {
            Some((status.id, format_offset(status.tail_bytes)))
        },
        None => None,
    }
}

/// Where the live stream at a path below a root ends.
pub fn live_tail_offset(table: &StreamTable, stream_root: &str, relative: &str) -> (r: Option<
    String,
>)
    requires
        table.wf(),
    ensures
        match r {
            Some(tail) => live_at(table@, stream_root@, relative@) is Some && tail@ == tail_at(
                table@,
                stream_root@,
                relative@,
            ),
            None => live_at(table@, stream_root@, relative@) is None,
        },
{
    match live_stream_metadata(table, stream_root, relative) {
        Some((_, tail)) => Some(tail),
        None => None,
    }
}

/// The identity of the live stream at a path below a root.
pub fn live_stream_id(table: &StreamTable, stream_root: &str, relative: &str) -> (r: Option<u64>)
    requires
        table.wf(),
    ensures
        r == id_at(table@, stream_root@, relative@),
{
    match live_stream_metadata(table, stream_root, relative) {
        Some((id, _)) => Some(id),
        None => None,
    }
}

/// Where the stream at a path below a root ends; the beginning if there is none.
pub fn tail_offset(table: &StreamTable, stream_root: &str, relative: &str) -> (r: String)
    requires
        table.wf(),
    ensures
        r@ == tail_at(table@, stream_root@, relative@),
{
    match live_tail_offset(table, stream_root, relative) {
        Some(tail) => tail,
        None => format_offset(0),
    }
}

/// The names of the live streams below a root.
pub fn list_streams(table: &StreamTable, stream_root: &str) -> (r: Vec<String>)
    requires
        table.wf(),
    ensures
        texts(r@) == listed(in_order(table@.dom()), table@, stream_root@),
{
    let mut names: Vec<String> = Vec::new();
    let mut i: usize = 0;
    let ghost paths = table.key_list();
    proof {
        table.lemma_lists();
    }
    assert(texts(names@) =~= listed(paths.take(0), table@, stream_root@));
    while i < table.len()
        invariant
            table.wf(),
            paths == table.key_list(),
            i <= paths.len(),
            texts(names@) == listed(paths.take(i as int), table@, stream_root@),
        decreases paths.len() - i,
    {
        let status = table.value_at(i);
        let path = table.key_at(i);
        assert(paths.take(i + 1).drop_last() =~= paths.take(i as int));
        assert(paths.take(i + 1).last() == path@);
        if !status.fenced && !status.expired && !status.soft_deleted {
            match relative_stream_path(stream_root, path.as_str()) {
                Some(name) => {
                    let ghost before = texts(names@);
                    names.push(name);
                    assert(texts(names@) =~= before.push(name@));
                },
                None => {},
            }
        }
        i = i + 1;
    }
    assert(paths.take(paths.len() as int) =~= paths);
    names
}

/// How a subscription is linked to one stream.
pub struct StreamLink {
    pub explicit: bool,
    pub glob: bool,
    pub acked_offset: String,
    pub stream_id: Option<u64>,
}

/// A link as a mathematical value.
#[verifier::ext_equal]
pub struct LinkView {
    pub explicit: bool,
    pub glob: bool,
    pub acked: Seq<char>,
    pub stream_id: Option<u64>,
}

impl View for StreamLink {
    type V = LinkView;

    open spec fn view(&self) -> LinkView {
        LinkView {
            explicit: self.explicit,
            glob: self.glob,
            acked: self.acked_offset@,
            stream_id: self.stream_id,
        }
    }
}

impl Duplicate for StreamLink {
    fn duplicate(&self) -> (r: Self) {
        StreamLink {
            explicit: self.explicit,
            glob: self.glob,
            acked_offset: self.acked_offset.clone(),
            stream_id: self.stream_id,
        }
    }
}

} // verus!
