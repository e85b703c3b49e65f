//! The list of streams that administrators page through.

use crate::path_map::{in_order, Duplicate, PathMap};
use crate::subscriptions::subscription::next_u64;
use crate::text::{
    lemma_text_before_asymmetric, lemma_text_before_transitive, text_before, text_less,
};
use vstd::prelude::*;

verus! {

/// One line of the list.
pub struct InventoryEntry {
    pub path: String,
    pub closed: bool,
    pub deleted: bool,
    pub durable_bytes: u64,
    pub stream_id: u64,
}

/// One line of the list as a mathematical value.
#[verifier::ext_equal]
pub struct EntryView {
    pub path: Seq<char>,
    pub closed: bool,
    pub deleted: bool,
    pub durable_bytes: u64,
    pub stream_id: u64,
}

impl View for InventoryEntry {
    type V = EntryView;

    open spec fn view(&self) -> EntryView {
        EntryView {
            path: self.path@,
            closed: self.closed,
            deleted: self.deleted,
            durable_bytes: self.durable_bytes,
            stream_id: self.stream_id,
        }
    }
}

impl Duplicate for InventoryEntry {
    fn duplicate(&self) -> (r: Self) {
        InventoryEntry {
            path: self.path.clone(),
            closed: self.closed,
            deleted: self.deleted,
            durable_bytes: self.durable_bytes,
            stream_id: self.stream_id,
        }
    }
}

/// Why a page cannot be had.
#[derive(Clone, Copy, Debug, PartialEq, Eq, Structural)]
pub enum InventoryPageError {
    GenerationChanged,
}

/// The list, with a number that changes whenever it does.
pub struct Inventory {
    pub generation: u64,
    pub entries: PathMap<InventoryEntry>,
}

/// The list as a mathematical value.
#[verifier::ext_equal]
pub struct InventoryView {
    pub generation: u64,
    pub entries: Map<Seq<char>, EntryView>,
}

impl View for Inventory {
    type V = InventoryView;

    open spec fn view(&self) -> InventoryView {
        InventoryView { generation: self.generation, entries: self.entries@ }
    }
}

/// One page: the generation it belongs to, its lines, and whether there are more.
pub struct InventoryPage {
    pub generation: u64,
    pub entries: Vec<InventoryEntry>,
    pub more: bool,
}

/// The paths behind `after`, in their order.
pub open spec fn paths_after(paths: Seq<Seq<char>>, after: Option<Seq<char>>) -> Seq<Seq<char>>
    decreases paths.len(),
{
    match after {
        None => paths,
        Some(mark) => if paths.len() > 0 && !text_before(mark, paths[0]) {
            paths_after(paths.skip(1), after)
        } else {
            paths
        },
    }
}

impl InventoryView {
    /// Every line stands under its own path.
    pub open spec fn in_place(self) -> bool {
        forall|path: Seq<char>| #[trigger]
            self.entries.contains_key(path) ==> self.entries[path].path == path
    }

    /// The list with one line put in.
    pub open spec fn with_entry(self, entry: EntryView) -> InventoryView {
        InventoryView {
            generation: next_u64(self.generation),
            entries: self.entries.insert(entry.path, entry),
        }
    }

    /// The list without the line of one stream. The line of another stream at
    /// the same path stays.
    pub open spec fn without_entry(self, path: Seq<char>, stream_id: u64) -> InventoryView {
        if self.entries.contains_key(path) && self.entries[path].stream_id == stream_id {
            InventoryView {
                generation: next_u64(self.generation),
                entries: self.entries.remove(path),
            }
        } else {
            self
        }
    }

    /// The paths behind `after`, in their order.
    pub open spec fn behind(self, after: Option<Seq<char>>) -> Seq<Seq<char>> {
        paths_after(in_order(self.entries.dom()), after)
    }
}

/// What a request for a page is answered: up to `limit` lines behind `after`. A
/// page of another generation cannot be had.
pub open spec fn is_page(
    inventory: InventoryView,
    generation: Option<u64>,
    after: Option<Seq<char>>,
    limit: usize,
    answer: Result<InventoryPage, InventoryPageError>,
) -> bool {
    let behind = inventory.behind(after);
    let shown = if behind.len() <= limit {
        behind
    } else {
        behind.take(limit as int)
    };
    if generation matches Some(wanted) && wanted != inventory.generation {
        answer matches Err(InventoryPageError::GenerationChanged)
    } else {
        &&& answer matches Ok(page)
        &&& page.generation == inventory.generation
        &&& page.more == (behind.len() > limit)
        &&& entry_list(page.entries@) == shown.map_values(
            |path: Seq<char>| inventory.entries[path],
        )
    }
}

/// The contents of several lines.
pub open spec fn entry_list(entries: Seq<InventoryEntry>) -> Seq<EntryView> {
    entries.map_values(|entry: InventoryEntry| entry@)
}

/// Skipping what is not behind the mark leaves what is.
proof fn lemma_paths_after(paths: Seq<Seq<char>>, mark: Seq<char>, from: int)
    requires
        0 <= from <= paths.len(),
        forall|i: int| 0 <= i < from ==> !text_before(mark, #[trigger] paths[i]),
        from < paths.len() ==> text_before(mark, paths[from]),
    ensures
        paths_after(paths, Some(mark)) == paths.skip(from),
    decreases from,
{
    if from == 0 {
        assert(paths.skip(0) =~= paths);
    } else {
        assert(!text_before(mark, paths[0]));
        let rest = paths.skip(1);
        assert forall|i: int| 0 <= i < from - 1 implies !text_before(mark, #[trigger] rest[i]) by {
            assert(rest[i] == paths[i + 1]);
        }
        lemma_paths_after(rest, mark, from - 1);
        assert(rest.skip(from - 1) =~= paths.skip(from));
    }
}

impl Inventory {
    /// The list is sorted.
    pub open spec fn wf(&self) -> bool {
        self.entries.wf()
    }

    /// An empty list.
    pub fn new() -> (r: Inventory)
        ensures
            r.wf(),
            r@.generation == 0,
            r@.entries == Map::<Seq<char>, EntryView>::empty(),
    {
        Inventory { generation: 0, entries: PathMap::new() }
    }

    /// Put one line in.
    pub fn publish(&mut self, entry: InventoryEntry)
        requires
            old(self).wf(),
        ensures
            final(self).wf(),
            final(self)@ == old(self)@.with_entry(entry@),
    {
        let path = entry.path.clone();
        self.entries.insert(path, entry);
        self.generation = self.generation.wrapping_add(1);
        assert(self@ =~= old(self)@.with_entry(entry@));
    }

    /// Replace the whole list.
    pub fn replace(&mut self, entries: PathMap<InventoryEntry>)
        requires
            entries.wf(),
        ensures
            final(self).wf(),
            final(self)@.entries == entries@,
            final(self)@.generation == next_u64(old(self)@.generation),
    {
        self.entries = entries;
        self.generation = self.generation.wrapping_add(1);
    }

    /// Take the line of one stream out.
    pub fn remove(&mut self, path: &str, expected_id: u64)
        requires
            old(self).wf(),
        ensures
            final(self).wf(),
            final(self)@ == old(self)@.without_entry(path@, expected_id),
    {
        let own = match self.entries.get(path) {
            Some(entry) => entry.stream_id == expected_id,
            None => false,
        };
        if own {
            let _ = self.entries.remove(path);
            self.generation = self.generation.wrapping_add(1);
        }
        assert(self@ =~= old(self)@.without_entry(path@, expected_id));
    }

    /// One page of the list: up to `limit` lines behind `after`. A page of an
    /// earlier generation cannot be had.
    pub fn page(&self, generation: Option<u64>, after: Option<&str>, limit: usize) -> (r: Result<
        InventoryPage,
        InventoryPageError,
    >)
        requires
            self.wf(),
        ensures
            is_page(
                self@,
                generation,
                match after {
                    Some(text) => Some(text@),
                    None => None,
                },
                limit,
                r,
            ),
    {
        match generation {
            Some(wanted) => {
                if wanted != self.generation {
                    return Err(InventoryPageError::GenerationChanged);
                }
            },
            None => {},
        }
        let ghost keys = self.entries.key_list();
        let count: usize = self.entries.len();
        let mut from: usize = 0;
        proof {
            self.entries.lemma_lists();
        }
        match after {
            Some(mark) => {
                while from < count && !text_less(mark, self.entries.key_at(from).as_str())
                    invariant
                        self.wf(),
                        keys == self.entries.key_list(),
                        count == keys.len(),
                        from <= count,
                        forall|i: int| 0 <= i < from ==> !text_before(mark@, #[trigger] keys[i]),
                    decreases count - from,
                {
                    from = from + 1;
                }
                proof {
                    lemma_paths_after(keys, mark@, from as int);
                }
            },
            None => {
                assert(keys.skip(0) =~= keys);
            },
        }
        let ghost behind = keys.skip(from as int);
        let more = count - from > limit;
        let end: usize = if more {
            from + limit
        } else {
            count
        };
        let mut entries: Vec<InventoryEntry> = Vec::new();
        let mut i: usize = from;
        while i < end
            invariant
                self.wf(),
                keys == self.entries.key_list(),
                from <= i <= end,
                end <= keys.len(),
                entries@.len() == i - from,
                forall|k: int|
                    0 <= k < i - from ==> (#[trigger] entries@[k])@ == self@.entries[keys[k + from]],
            decreases end - i,
        {
            entries.push(self.entries.value_at(i).duplicate());
            i = i + 1;
        }
        proof {
            let shown = if behind.len() <= limit {
                behind
            } else {
                behind.take(limit as int)
            };
            assert(entry_list(entries@) =~= shown.map_values(
                |path: Seq<char>| self@.entries[path],
            ));
        }
        Ok(InventoryPage { generation: self.generation, entries, more })
    }
}

/// Pages follow each other without gap or overlap: what stands behind the last
/// path of one page is what stood behind that page.
pub proof fn law_pages_follow(
    inventory: InventoryView,
    after: Option<Seq<char>>,
    limit: nat,
)
    requires
        inventory.entries.dom().finite(),
        0 < limit < inventory.behind(after).len(),
    ensures
        inventory.behind(Some(inventory.behind(after)[limit - 1])) == inventory.behind(after).skip(
            limit as int,
        ),
{
    let keys = in_order(inventory.entries.dom());
    crate::path_map::lemma_order_of(inventory.entries.dom());
    lemma_tail_of(keys, after);
    let from = choose|from: int|
        0 <= from <= keys.len() && paths_after(keys, after) == #[trigger] keys.skip(from);
    let behind = inventory.behind(after);
    let last = behind[limit - 1];
    let at = from + limit;
    assert(last == keys[at - 1]);
    assert forall|i: int| 0 <= i < at implies !text_before(last, #[trigger] keys[i]) by {
        lemma_text_before_asymmetric(last, last);
        if i < at - 1 {
            assert(text_before(keys[i], keys[at - 1]));
            lemma_text_before_asymmetric(keys[i], last);
        }
    }
    if at < keys.len() {
        assert(text_before(keys[at - 1], keys[at]));
    }
    lemma_paths_after(keys, last, at);
    assert(keys.skip(at) =~= behind.skip(limit as int));
}

/// The lines of a page ascend strictly by path, and all of them are behind the
/// mark.
pub proof fn law_page_ascends(
    inventory: InventoryView,
    generation: Option<u64>,
    after: Option<Seq<char>>,
    limit: usize,
    page: InventoryPage,
)
    requires
        inventory.entries.dom().finite(),
        inventory.in_place(),
        is_page(inventory, generation, after, limit, Ok(page)),
    ensures
        forall|i: int, j: int|
            0 <= i < j < page.entries@.len() ==> text_before(
                (#[trigger] page.entries@[i]).path@,
                (#[trigger] page.entries@[j]).path@,
            ),
        after matches Some(mark) ==> forall|i: int|
            0 <= i < page.entries@.len() ==> text_before(mark, (#[trigger] page.entries@[i]).path@),
{
    let keys = in_order(inventory.entries.dom());
    crate::path_map::lemma_order_of(inventory.entries.dom());
    lemma_tail_of(keys, after);
    let behind = inventory.behind(after);
    let from = choose|from: int|
        0 <= from <= keys.len() && paths_after(keys, after) == #[trigger] keys.skip(from);
    let shown = if behind.len() <= limit {
        behind
    } else {
        behind.take(limit as int)
    };
    let lines = shown.map_values(|path: Seq<char>| inventory.entries[path]);
    assert(entry_list(page.entries@) == lines);
    assert(entry_list(page.entries@).len() == page.entries@.len());
    assert forall|i: int| 0 <= i < page.entries@.len() implies (
    #[trigger] page.entries@[i]).path@ == keys[from + i] by {
        assert(behind[i] == keys[from + i]);
        assert(entry_list(page.entries@)[i] == lines[i]);
        assert(keys.contains(keys[from + i]));
        assert(keys.to_set().contains(keys[from + i]));
        assert(inventory.entries.dom().contains(keys[from + i]));
        assert(inventory.entries.contains_key(keys[from + i]));
    }
    if let Some(mark) = after {
        lemma_behind_mark(keys, mark);
        assert forall|i: int| 0 <= i < page.entries@.len() implies text_before(
            mark,
            (#[trigger] page.entries@[i]).path@,
        ) by {
            assert(text_before(mark, behind[0]));
            if i > 0 {
                assert(text_before(keys[from], keys[from + i]));
                lemma_text_before_transitive(mark, keys[from], keys[from + i]);
            }
        }
    }
}

/// The first path that stands behind a mark is behind it.
proof fn lemma_behind_mark(keys: Seq<Seq<char>>, mark: Seq<char>)
    ensures
        paths_after(keys, Some(mark)).len() > 0 ==> text_before(
            mark,
            paths_after(keys, Some(mark))[0],
        ),
    decreases keys.len(),
{
    if keys.len() > 0 && !text_before(mark, keys[0]) {
        lemma_behind_mark(keys.skip(1), mark);
    }
}

/// What stands behind a mark is a tail of the list.
proof fn lemma_tail_of(keys: Seq<Seq<char>>, after: Option<Seq<char>>)
    ensures
        exists|from: int|
            0 <= from <= keys.len() && paths_after(keys, after) == #[trigger] keys.skip(from),
    decreases keys.len(),
{
    if after is Some && keys.len() > 0 && !text_before(after->0, keys[0]) {
        lemma_tail_of(keys.skip(1), after);
        let k = choose|k: int|
            0 <= k <= keys.skip(1).len() && paths_after(keys.skip(1), after)
                == #[trigger] keys.skip(1).skip(k);
        assert(keys.skip(1).skip(k) =~= keys.skip(k + 1));
    } else {
        assert(keys.skip(0) =~= keys);
    }
}

/// A removal that comes late, after another stream took the path, changes nothing.
pub proof fn law_stale_removal_is_inert(inventory: InventoryView, path: Seq<char>, stream_id: u64)
    requires
        inventory.entries.contains_key(path) ==> inventory.entries[path].stream_id != stream_id,
    ensures
        inventory.without_entry(path, stream_id) == inventory,
{
}

} // verus!
