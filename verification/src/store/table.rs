//! The store: which streams there are, and how they are created, deleted and
//! collected.

use crate::clock::WallTime;
use crate::path_map::PathMap;
use crate::store::identity::StreamIdentity;
use crate::store::inventory::{EntryView, Inventory, InventoryView};
use crate::store::naming::{
    encode_path, encoded_path, is_json_content_type, lane_dir, lane_dir_of, lane_for, lane_of,
    media_type_of, StoreSettings,
};
use crate::store::registry::{registered, registry_claim, registry_get, registry_new};
use crate::store::stream::{
    StreamConfig, StreamConfigView, StreamState, StreamView,
};
use crate::subscriptions::subscription::next_u64;
use crate::text::{child_path, decimal, path_in, push_decimal};
use dashmap::DashMap;
use std::collections::HashMap;
use vstd::prelude::*;

verus! {

broadcast use vstd::std_specs::hash::group_hash_axioms;

/// The store. Streams are known by the number of their in-memory instance; the
/// registry says which of them is at which path.
pub struct Store {
    pub registry: DashMap<String, u64>,
    pub streams: HashMap<u64, StreamState>,
    pub next_id: u64,
    pub next_instance: u64,
    pub inventory: Inventory,
    pub meta_sweep: Vec<u64>,
    pub settings: StoreSettings,
}

/// The store as a mathematical value.
#[verifier::ext_equal]
pub struct StoreView {
    pub registry: Map<Seq<char>, u64>,
    pub streams: Map<u64, StreamView>,
    pub next_id: u64,
    pub next_instance: u64,
    pub inventory: InventoryView,
    pub sweep: Seq<u64>,
}

impl View for Store {
    type V = StoreView;

    open spec fn view(&self) -> StoreView {
        StoreView {
            registry: registered(self.registry),
            streams: self.streams@.map_values(|stream: StreamState| stream@),
            next_id: self.next_id,
            next_instance: self.next_instance,
            inventory: self.inventory@,
            sweep: self.meta_sweep@,
        }
    }
}

impl StoreView {
    /// Every registered stream is there under its path, every stream carries its
    /// instance number, and a parent is older than its forks. Every line of the
    /// list stands under its own path. What waits for its sidecar was a stream.
    pub open spec fn wf(self) -> bool {
        &&& forall|path: Seq<char>| #[trigger]
            self.registry.contains_key(path) ==> {
                &&& self.streams.contains_key(self.registry[path])
                &&& self.streams[self.registry[path]].path == path
            }
        &&& forall|instance: u64| #[trigger]
            self.streams.contains_key(instance) ==> {
                &&& self.streams[instance].identity.instance == instance
                &&& instance < self.next_instance
                &&& self.streams[instance].parent matches Some(parent) ==> parent < instance
            }
        &&& self.inventory.in_place()
        &&& forall|i: int|
            0 <= i < self.sweep.len() ==> (#[trigger] self.sweep[i]) < self.next_instance
    }

    /// The store with one stream changed.
    pub open spec fn with_stream(self, instance: u64, stream: StreamView) -> StoreView {
        StoreView { streams: self.streams.insert(instance, stream), ..self }
    }

    /// Whether exactly this stream is at its path.
    pub open spec fn exact(self, instance: u64) -> bool {
        self.streams.contains_key(instance) && self.registry.contains_pair(
            self.streams[instance].path,
            instance,
        )
    }
}

/// The line of a stream in the list.
pub open spec fn entry_of(stream: StreamView) -> EntryView {
    EntryView {
        path: stream.path,
        closed: stream.closed_durable,
        deleted: stream.soft_deleted,
        durable_bytes: stream.durable_tail,
        stream_id: stream.identity.id,
    }
}

/// What is found at a path.
#[derive(Clone, Copy, Debug, PartialEq, Eq, Structural)]
pub enum Lookup {
    Missing,
    SoftDeleted(u64),
    Expired(u64),
    Live(u64),
}

/// What came of a request to create a stream.
#[derive(Clone, Copy, Debug, PartialEq, Eq, Structural)]
pub enum CreateResult {
    Created(u64),
    Exists(u64),
    Conflict,
}

/// What is known about a request to create a stream before a file is opened.
#[derive(Clone, Copy, Debug, PartialEq, Eq, Structural)]
pub enum CreateCheck {
    Settled(CreateResult),
    RetireExpired(u64),
    Free,
}

impl StoreView {
    /// What is found at a path.
    pub open spec fn lookup(self, path: Seq<char>, now: WallTime) -> Lookup {
        if !self.registry.contains_key(path) {
            Lookup::Missing
        } else {
            let instance = self.registry[path];
            let stream = self.streams[instance];
            if stream.soft_deleted {
                Lookup::SoftDeleted(instance)
            } else if stream.expired_at(now) {
                Lookup::Expired(instance)
            } else {
                Lookup::Live(instance)
            }
        }
    }

    /// What a request to create a stream comes upon.
    pub open spec fn create_check(
        self,
        path: Seq<char>,
        config: StreamConfigView,
        now: WallTime,
    ) -> CreateCheck {
        match self.lookup(path, now) {
            Lookup::Missing => CreateCheck::Free,
            Lookup::Expired(instance) => CreateCheck::RetireExpired(instance),
            Lookup::SoftDeleted(instance) => CreateCheck::Settled(self.against(instance, config)),
            Lookup::Live(instance) => CreateCheck::Settled(self.against(instance, config)),
        }
    }

    /// What a request for a path means, given the stream that is there.
    pub open spec fn against(self, instance: u64, config: StreamConfigView) -> CreateResult {
        if self.streams[instance].soft_deleted {
            CreateResult::Conflict
        } else if self.streams[instance].matches(config) {
            CreateResult::Exists(instance)
        } else {
            CreateResult::Conflict
        }
    }

    /// The store with the line of a stream published, if a stream with its
    /// number is at its path.
    pub open spec fn published(self, instance: u64) -> StoreView {
        let stream = self.streams[instance];
        if self.registry.contains_key(stream.path)
            && self.streams[self.registry[stream.path]].identity.id == stream.identity.id {
            StoreView { inventory: self.inventory.with_entry(entry_of(stream)), ..self }
        } else {
            self
        }
    }
}

/// The name of a stream's data file.
pub open spec fn file_name(path: Seq<char>, id: u64) -> Seq<char> {
    encoded_path(path).push('~') + decimal(id as nat)
}

/// A data file that is still to be opened.
pub struct NewFile {
    pub id: u64,
    pub file_path: String,
}

/// A stream as it is right after its creation.
pub open spec fn fresh_stream(
    identity: StreamIdentity,
    path: Seq<char>,
    config: StreamConfigView,
    parent: Option<u64>,
    base_offset: u64,
    file_path: Seq<char>,
    now: WallTime,
) -> StreamView {
    StreamView {
        identity,
        path,
        config,
        is_json: media_type_of(config.content_type) == "application/json"@,
        file_path,
        base_offset,
        parent,
        boot_meta_durable_tail: Some(base_offset),
        fenced: false,
        inflight_appends: 0,
        meta_dirty: false,
        tail: base_offset,
        durable_tail: base_offset,
        file_base: base_offset,
        closed: config.create_closed,
        closed_durable: config.create_closed,
        closed_by: None,
        producers: Map::empty(),
        last_seq_header: None,
        last_access: now,
        ref_count: 0,
        soft_deleted: false,
        segments: Seq::empty(),
        sealed_offset: 0,
        compaction: None,
    }
}

impl StoreView {
    /// The store with one fork more or less of a stream.
    pub open spec fn with_ref_count(self, instance: u64, ref_count: u32) -> StoreView {
        self.with_stream(instance, StreamView { ref_count, ..self.streams[instance] })
    }

    /// What putting a new stream in place does: nothing where another stream has
    /// the path.
    pub open spec fn installing(self, stream: StreamView) -> (StoreView, CreateResult) {
        if self.registry.contains_key(stream.path) {
            (self, self.against(self.registry[stream.path], stream.config))
        } else {
            (self.installed(stream), CreateResult::Created(stream.identity.instance))
        }
    }

    /// The store with a new stream in place, and its parent counted.
    pub open spec fn installed(self, stream: StreamView) -> StoreView {
        let with_new = StoreView {
            registry: self.registry.insert(stream.path, stream.identity.instance),
            streams: self.streams.insert(stream.identity.instance, stream),
            next_instance: (self.next_instance + 1) as u64,
            ..self
        };
        match stream.parent {
            Some(parent) => with_new.with_ref_count(
                parent,
                (self.streams[parent].ref_count + 1) as u32,
            ),
            None => with_new,
        }
    }
}

/// A new stream keeps the store in order.
proof fn lemma_installed_wf(store: StoreView, stream: StreamView)
    requires
        store.wf(),
        store.next_instance < u64::MAX,
        stream.identity.instance == store.next_instance,
        !store.registry.contains_key(stream.path),
        stream.parent matches Some(p) ==> store.streams.contains_key(p),
    ensures
        store.installed(stream).wf(),
{
    let next = store.installed(stream);
    assert forall|path: Seq<char>| #[trigger] next.registry.contains_key(path) implies {
        &&& next.streams.contains_key(next.registry[path])
        &&& next.streams[next.registry[path]].path == path
    } by {
        if path != stream.path {
            assert(store.registry.contains_key(path));
        }
    }
    assert forall|instance: u64| #[trigger] next.streams.contains_key(instance) implies {
        &&& next.streams[instance].identity.instance == instance
        &&& instance < next.next_instance
        &&& next.streams[instance].parent matches Some(parent) ==> parent < instance
    } by {
        if instance != stream.identity.instance {
            assert(store.streams.contains_key(instance));
        }
    }
    assert forall|i: int| 0 <= i < next.sweep.len() implies (#[trigger] next.sweep[i])
        < next.next_instance by {
        assert(store.sweep[i] < store.next_instance);
    }
}

impl Store {
    /// The parts fit together.
    pub open spec fn wf(&self) -> bool {
        &&& self@.wf()
        &&& self.inventory.wf()
        &&& forall|instance: u64| #[trigger]
            self.streams@.contains_key(instance) ==> self.streams@[instance].wf()
    }

    /// An empty store.
    pub fn new(settings: StoreSettings, id_seed: u64) -> (r: Store)
        ensures
            r.wf(),
            r@.registry.dom() == Set::<Seq<char>>::empty(),
            r@.streams.dom() == Set::<u64>::empty(),
            r@.next_id == id_seed % 0x20_0000_0000_0000,
            r@.next_instance == 0,
            r@.inventory.generation == 0,
            r@.inventory.entries == Map::<Seq<char>, EntryView>::empty(),
            r@.sweep.len() == 0,
            r.settings == settings,
    {
        let next_id: u64 = id_seed & 0x1f_ffff_ffff_ffff;
        assert(id_seed & 0x1f_ffff_ffff_ffff == id_seed % 0x20_0000_0000_0000) by (bit_vector);
        let r = Store {
            registry: registry_new(),
            streams: HashMap::new(),
            next_id,
            next_instance: 0,
            inventory: Inventory::new(),
            meta_sweep: Vec::new(),
            settings,
        };
        assert(r@.streams.dom() =~= Set::<u64>::empty());
        r
    }

    /// The stream with an instance number.
    pub fn stream(&self, instance: u64) -> (r: Option<&StreamState>)
        requires
            self.wf(),
        ensures
            match r {
                Some(stream) => {
                    &&& self@.streams.contains_key(instance)
                    &&& stream@ == self@.streams[instance]
                    &&& stream.wf()
                },
                None => !self@.streams.contains_key(instance),
            },
    {
        self.streams.get(&instance)
    }

    /// Put a changed stream in its place.
    pub(crate) fn put(&mut self, instance: u64, stream: StreamState)
        requires
            old(self).wf(),
            stream.wf(),
            old(self)@.with_stream(instance, stream@).wf(),
        ensures
            final(self).wf(),
            final(self)@ == old(self)@.with_stream(instance, stream@),
            final(self).settings == old(self).settings,
    {
        self.streams.insert(instance, stream);
        assert(self@.streams =~= old(self)@.streams.insert(instance, stream@));
        assert(self@ =~= old(self)@.with_stream(instance, stream@));
    }

    /// What is found at a path.
    pub fn lookup(&self, path: &str, now: WallTime) -> (r: Lookup)
        requires
            self.wf(),
        ensures
            r == self@.lookup(path@, now),
    {
        match registry_get(&self.registry, path) {
            Some(instance) => {
                assert(self@.registry.contains_key(path@));
                match self.streams.get(&instance) {
                    Some(stream) => {
                        assert(stream@ == self@.streams[instance]);
                        if stream.soft_deleted {
                            Lookup::SoftDeleted(instance)
                        } else if stream.is_expired_at(now) {
                            Lookup::Expired(instance)
                        } else {
                            Lookup::Live(instance)
                        }
                    },
                    None => Lookup::Missing,
                }
            },
            None => Lookup::Missing,
        }
    }

    /// What a request for a path means, given the stream that is there.
    fn against(&self, instance: u64, config: &StreamConfig) -> (r: CreateResult)
        requires
            self.wf(),
            self@.streams.contains_key(instance),
        ensures
            r == self@.against(instance, config@),
    {
        match self.streams.get(&instance) {
            Some(stream) => {
                assert(stream@ == self@.streams[instance]);
                if stream.soft_deleted {
                    CreateResult::Conflict
                } else if stream.config_matches(config) {
                    CreateResult::Exists(instance)
                } else {
                    CreateResult::Conflict
                }
            },
            None => CreateResult::Conflict,
        }
    }

    /// Look at a request to create a stream, before a file is opened for it. An
    /// expired stream has to be retired first.
    pub fn check_create(&self, path: &str, config: &StreamConfig, now: WallTime) -> (r: CreateCheck)
        requires
            self.wf(),
        ensures
            r == (match self@.lookup(path@, now) {
                Lookup::Missing => CreateCheck::Free,
                Lookup::Expired(instance) => CreateCheck::RetireExpired(instance),
                Lookup::SoftDeleted(instance) => CreateCheck::Settled(
                    self@.against(instance, config@),
                ),
                Lookup::Live(instance) => CreateCheck::Settled(self@.against(instance, config@)),
            }),
            r == self@.create_check(path@, config@, now),
    {
        match self.lookup(path, now) {
            Lookup::Missing => CreateCheck::Free,
            Lookup::Expired(instance) => CreateCheck::RetireExpired(instance),
            Lookup::SoftDeleted(instance) => {
                assert(self@.registry.contains_key(path@));
                CreateCheck::Settled(self.against(instance, config))
            },
            Lookup::Live(instance) => {
                assert(self@.registry.contains_key(path@));
                CreateCheck::Settled(self.against(instance, config))
            },
        }
    }

    /// Give a new stream its number and its data file.
    pub fn reserve_file(&mut self, data_dir: &str, path: &str) -> (r: NewFile)
        requires
            old(self).wf(),
        ensures
            final(self).wf(),
            final(self)@ == (StoreView { next_id: next_u64(old(self)@.next_id), ..old(self)@ }),
            final(self).settings == old(self).settings,
            r.id == old(self)@.next_id,
            ({
                let name = file_name(path@, r.id);
                let lanes = old(self).settings.lanes();
                r.file_path@ == path_in(lane_dir_of(data_dir@, lane_for(name, lanes), lanes), name)
            }),
    {
        let id: u64 = self.next_id;
        self.next_id = self.next_id.wrapping_add(1);
        let mut name = encode_path(path);
        name.push('~');
        push_decimal(&mut name, id);
        let lane = lane_of(name.as_str(), &self.settings);
        let dir = lane_dir(data_dir, lane, &self.settings);
        let file_path = child_path(dir.as_str(), name.as_str());
        assert(self@ =~= (StoreView { next_id: next_u64(old(self)@.next_id), ..old(self)@ }));
        NewFile { id, file_path }
    }

    /// Put a new stream in place once its file is open, unless another stream
    /// took the path meanwhile. Its sidecar is still to be written.
    pub fn install(
        &mut self,
        path: &str,
        config: StreamConfig,
        parent: Option<u64>,
        base_offset: u64,
        file: NewFile,
        now: WallTime,
    ) -> (r: CreateResult)
        requires
            old(self).wf(),
            old(self).next_instance < u64::MAX,
            parent matches Some(p) ==> old(self)@.streams.contains_key(p)
                && old(self)@.streams[p].ref_count < u32::MAX,
        ensures
            final(self).wf(),
            final(self).settings == old(self).settings,
            if old(self)@.registry.contains_key(path@) {
                &&& r == old(self)@.against(old(self)@.registry[path@], config@)
                &&& final(self)@ == old(self)@
            } else {
                &&& r == CreateResult::Created(old(self)@.next_instance)
                &&& final(self)@ == old(self)@.installed(
                    fresh_stream(
                        (StreamIdentity { id: file.id, instance: old(self)@.next_instance }),
                        path@,
                        config@,
                        parent,
                        base_offset,
                        file.file_path@,
                        now,
                    ),
                )
            },
            (final(self)@, r) == old(self)@.installing(
                fresh_stream(
                    (StreamIdentity { id: file.id, instance: old(self)@.next_instance }),
                    path@,
                    config@,
                    parent,
                    base_offset,
                    file.file_path@,
                    now,
                ),
            ),
    {
        let instance: u64 = self.next_instance;
        let key = path.to_owned();
        match registry_claim(&mut self.registry, key, instance) {
            Some(present) => {
                assert(self@ =~= old(self)@);
                return self.against(present, &config);
            },
            None => {},
        }
        let ghost config_view = config@;
        let is_json = is_json_content_type(config.content_type.as_str());
        let closed = config.create_closed;
        let stream = StreamState {
            identity: StreamIdentity { id: file.id, instance },
            path: path.to_owned(),
            config,
            is_json,
            file_path: file.file_path,
            base_offset,
            parent,
            boot_meta_durable_tail: Some(base_offset),
            fenced: false,
            inflight_appends: 0,
            meta_dirty: false,
            tail: base_offset,
            durable_tail: base_offset,
            file_base: base_offset,
            closed,
            closed_durable: closed,
            closed_by: None,
            producers: PathMap::new(),
            last_seq_header: None,
            last_access: now,
            ref_count: 0,
            soft_deleted: false,
            segments: Vec::new(),
            sealed_offset: 0,
            compaction: None,
        };
        let ghost fresh = fresh_stream(
            StreamIdentity { id: file.id, instance },
            path@,
            config_view,
            parent,
            base_offset,
            file.file_path@,
            now,
        );
        assert(stream@ =~= fresh);
        self.streams.insert(instance, stream);
        self.next_instance = self.next_instance + 1;
        match parent {
            Some(p) => {
                let taken = self.streams.remove(&p);
                match taken {
                    Some(stream) => {
                        let mut stream = stream;
                        let ghost before = stream@;
                        stream.ref_count = stream.ref_count + 1;
                        assert(stream@ =~= (StreamView {
                            ref_count: (before.ref_count + 1) as u32,
                            ..before
                        }));
                        self.streams.insert(p, stream);
                    },
                    None => {},
                }
            },
            None => {},
        }
        proof {
            let goal = old(self)@.installed(fresh);
            assert(self@.streams =~= goal.streams);
            assert(self@.registry =~= goal.registry);
            assert(self@ =~= goal);
            lemma_installed_wf(old(self)@, fresh);
        }
        CreateResult::Created(instance)
    }
}

/// No two streams share a data file: the name of a file tells the number of its
/// stream.
pub proof fn law_files_are_not_shared(path: Seq<char>, id: u64, other: Seq<char>, other_id: u64)
    requires
        file_name(path, id) == file_name(other, other_id),
    ensures
        id == other_id,
{
    let a = encoded_path(path);
    let b = encoded_path(other);
    lemma_no_tilde(path);
    lemma_no_tilde(other);
    lemma_digits_without_tilde(id);
    lemma_digits_without_tilde(other_id);
    crate::text::lemma_split_concat(a, '~', decimal(id as nat));
    crate::text::lemma_split_concat(b, '~', decimal(other_id as nat));
    crate::text::lemma_split_absent(a, '~');
    crate::text::lemma_split_absent(b, '~');
    crate::text::lemma_split_absent(decimal(id as nat), '~');
    crate::text::lemma_split_absent(decimal(other_id as nat), '~');
    let pieces = crate::text::split_on(file_name(path, id), '~');
    assert(pieces =~= seq![a, decimal(id as nat)]);
    assert(pieces =~= seq![b, decimal(other_id as nat)]);
    assert(pieces[1] == decimal(id as nat) && pieces[1] == decimal(other_id as nat));
    crate::text::lemma_parse_decimal(id);
    crate::text::lemma_parse_decimal(other_id);
}

proof fn lemma_no_tilde(path: Seq<char>)
    ensures
        !encoded_path(path).contains('~'),
{
    crate::store::naming::law_encoded_path_is_safe(path);
    let out = encoded_path(path);
    if out.contains('~') {
        let i = choose|i: int| 0 <= i < out.len() && out[i] == '~';
        assert(crate::store::naming::is_plain(out[i]) || out[i] == '+');
    }
}

proof fn lemma_digits_without_tilde(n: u64)
    ensures
        !decimal(n as nat).contains('~'),
{
    crate::text::lemma_decimal_value(n as nat);
    let s = decimal(n as nat);
    if s.contains('~') {
        let i = choose|i: int| 0 <= i < s.len() && s[i] == '~';
        assert(crate::text::is_digit(s[i]));
    }
}

} // verus!
