//! The identity of a store, as it is written down on its volume. The rules are
//! strict: what is observed must match what a deployment expects.

use crate::text::{child_path, decimal, joined, path_in, push_decimal, same_text, texts};
use vstd::prelude::*;
use vstd::utf8::encode_utf8;

verus! {

/// The name of the manifest in the data directory.
pub const MANIFEST_FILE: &'static str = ".durable-streams-store-v1.json";

/// The identity of a store.
pub struct StoreManifestV1 {
    pub store_id: String,
    pub store_generation: String,
    pub protocol_version: u32,
    pub layout_version: u32,
    pub durability_mode: String,
    pub wal_shard_count: u32,
    pub stream_lane_count: u32,
    pub filesystem_uuid: String,
    pub creation_time: String,
}

/// The identity that a deployment expects.
pub struct ExpectedStoreIdentityV1 {
    pub store_id: String,
    pub store_generation: String,
    pub protocol_version: u32,
    pub layout_version: u32,
    pub durability_mode: String,
    pub wal_shard_count: u32,
    pub stream_lane_count: u32,
    pub filesystem_uuid: String,
}

/// Whether a place in a UUID holds a hyphen.
pub open spec fn is_hyphen_place(i: int) -> bool {
    i == 8 || i == 13 || i == 18 || i == 23
}

/// Whether a byte is a small hexadecimal digit.
pub open spec fn is_small_hex(b: u8) -> bool {
    48 <= b <= 57 || 97 <= b <= 102
}

/// Whether bytes are a UUID in its canonical form.
pub open spec fn is_uuid(bytes: Seq<u8>) -> bool {
    &&& bytes.len() == 36
    &&& forall|i: int|
        0 <= i < 36 ==> if is_hyphen_place(i) {
            #[trigger] bytes[i] == 45
        } else {
            is_small_hex(bytes[i])
        }
}

/// Check that a value is a UUID in its canonical form.
pub fn canonical_uuid(name: &str, value: &str) -> (r: Result<(), String>)
    ensures
        r is Ok <==> is_uuid(encode_utf8(value@)),
        r matches Err(message) ==> message@ == name@ + " must be a canonical lowercase UUID"@,
{
    let bytes = value.as_bytes();
    if bytes.len() != 36 {
        return Err(joined(name, " must be a canonical lowercase UUID"));
    }
    let mut i: usize = 0;
    while i < 36
        invariant
            i <= 36,
            bytes@.len() == 36,
            bytes@ == encode_utf8(value@),
            forall|k: int|
                0 <= k < i ==> if is_hyphen_place(k) {
                    #[trigger] bytes@[k] == 45
                } else {
                    is_small_hex(bytes@[k])
                },
        decreases 36 - i,
    {
        let b: u8 = bytes[i];
        let hyphen = i == 8 || i == 13 || i == 18 || i == 23;
        let fits = if hyphen {
            b == 45
        } else {
            (b >= 48 && b <= 57) || (b >= 97 && b <= 102)
        };
        if !fits {
            assert(is_hyphen_place(i as int) == hyphen);
            return Err(joined(name, " must be a canonical lowercase UUID"));
        }
        i = i + 1;
    }
    Ok(())
}

/// The separator at a place of a canonical time, if it has one.
pub open spec fn time_separator(i: int) -> Option<u8> {
    if i == 4 || i == 7 {
        Some(45)
    } else if i == 10 {
        Some(84)
    } else if i == 13 || i == 16 {
        Some(58)
    } else if i == 19 {
        Some(90)
    } else {
        None
    }
}

/// Whether bytes have the shape `YYYY-MM-DDTHH:MM:SSZ`.
pub open spec fn has_time_shape(bytes: Seq<u8>) -> bool {
    &&& bytes.len() == 20
    &&& forall|i: int|
        0 <= i < 20 ==> match time_separator(i) {
            Some(separator) => #[trigger] bytes[i] == separator,
            None => 48 <= bytes[i] <= 57,
        }
}

/// The number of two digits.
pub open spec fn two_digits(bytes: Seq<u8>, at: int) -> int {
    (bytes[at] - 48) * 10 + (bytes[at + 1] - 48)
}

/// How many days a month has.
pub open spec fn days_in(year: int, month: int) -> int {
    if month == 2 {
        if year % 4 == 0 && (year % 100 != 0 || year % 400 == 0) {
            29
        } else {
            28
        }
    } else if month == 4 || month == 6 || month == 9 || month == 11 {
        30
    } else if 1 <= month <= 12 {
        31
    } else {
        0
    }
}

/// Whether a text of the right shape names a second that there is.
pub open spec fn is_time(bytes: Seq<u8>) -> bool {
    let year = two_digits(bytes, 0) * 100 + two_digits(bytes, 2);
    let month = two_digits(bytes, 5);
    let day = two_digits(bytes, 8);
    &&& year != 0
    &&& 1 <= day <= days_in(year, month)
    &&& two_digits(bytes, 11) <= 23
    &&& two_digits(bytes, 14) <= 59
    &&& two_digits(bytes, 17) <= 59
}

/// What is wrong with a creation time, if anything.
pub open spec fn time_complaint(bytes: Seq<u8>) -> Option<Seq<char>> {
    if !has_time_shape(bytes) {
        Some("creation_time must be canonical RFC3339 UTC (YYYY-MM-DDTHH:MM:SSZ)"@)
    } else if !is_time(bytes) {
        Some("creation_time is not a valid RFC3339 UTC timestamp"@)
    } else {
        None
    }
}

fn shaped_as_time(bytes: &[u8]) -> (r: bool)
    ensures
        r == has_time_shape(bytes@),
{
    if bytes.len() != 20 {
        return false;
    }
    let mut i: usize = 0;
    while i < 20
        invariant
            i <= 20,
            bytes@.len() == 20,
            forall|k: int|
                0 <= k < i ==> match time_separator(k) {
                    Some(separator) => #[trigger] bytes@[k] == separator,
                    None => 48 <= bytes@[k] <= 57,
                },
        decreases 20 - i,
    {
        let b: u8 = bytes[i];
        let fits = if i == 4 || i == 7 {
            b == 45
        } else if i == 10 {
            b == 84
        } else if i == 13 || i == 16 {
            b == 58
        } else if i == 19 {
            b == 90
        } else {
            b >= 48 && b <= 57
        };
        if !fits {
            assert(match time_separator(i as int) {
                Some(separator) => bytes@[i as int] != separator,
                None => !(48 <= bytes@[i as int] <= 57),
            });
            return false;
        }
        i = i + 1;
    }
    true
}

fn two(bytes: &[u8], at: usize) -> (r: u32)
    requires
        at + 1 < bytes@.len(),
        48 <= bytes@[at as int] <= 57,
        48 <= bytes@[at + 1] <= 57,
    ensures
        r == two_digits(bytes@, at as int),
        r <= 99,
{
    (bytes[at] - 48) as u32 * 10 + (bytes[at + 1] - 48) as u32
}

/// Check that a value is a time in its canonical form.
pub fn canonical_time(value: &str) -> (r: Result<(), String>)
    ensures
        match r {
            Ok(_) => time_complaint(encode_utf8(value@)) is None,
            Err(message) => time_complaint(encode_utf8(value@)) == Some(message@),
        },
{
    let bytes = value.as_bytes();
    if !shaped_as_time(bytes) {
        return Err(
            "creation_time must be canonical RFC3339 UTC (YYYY-MM-DDTHH:MM:SSZ)".to_owned(),
        );
    }
    proof {
        assert forall|i: int| 0 <= i < 20 && time_separator(i) is None implies 48 <= #[trigger] bytes@[i]
            <= 57 by {}
    }
    let year: u32 = two(bytes, 0) * 100 + two(bytes, 2);
    let month: u32 = two(bytes, 5);
    let day: u32 = two(bytes, 8);
    let hour: u32 = two(bytes, 11);
    let minute: u32 = two(bytes, 14);
    let second: u32 = two(bytes, 17);
    let leap = year % 4 == 0 && (year % 100 != 0 || year % 400 == 0);
    let days: u32 = if month == 2 {
        if leap {
            29
        } else {
            28
        }
    } else if month == 4 || month == 6 || month == 9 || month == 11 {
        30
    } else if month >= 1 && month <= 12 {
        31
    } else {
        0
    };
    if year == 0 || day == 0 || day > days || hour > 23 || minute > 59 || second > 59 {
        return Err("creation_time is not a valid RFC3339 UTC timestamp".to_owned());
    }
    Ok(())
}

/// The text that `{:?}` gives for a string.
pub uninterp spec fn debug_text(s: Seq<char>) -> Seq<char>;

/// `format!` with `{:?}` of the standard library, on a string.
#[verifier::external_body]
fn debug_quoted(s: &str) -> (r: String)
    ensures
        r@ == debug_text(s@),
{
    format!("{:?}", s)
}

/// That a part of the manifest is not as expected, in words.
pub open spec fn mismatch_text(name: Seq<char>, wanted: Seq<char>, observed: Seq<char>) -> Seq<
    char,
> {
    "manifest "@ + name + " mismatch: expected "@ + wanted + ", observed "@ + observed
}

/// That a part of the manifest is not as expected, in words.
pub fn mismatch(name: &str, wanted: &str, observed: &str) -> (r: String)
    ensures
        r@ == mismatch_text(name@, wanted@, observed@),
{
    let mut message = joined("manifest ", name);
    message.append(" mismatch: expected ");
    message.append(wanted);
    message.append(", observed ");
    message.append(observed);
    message
}

fn same_or_mismatch(name: &str, observed: &str, wanted: &str) -> (r: Result<(), String>)
    ensures
        r is Ok <==> observed@ == wanted@,
        r matches Err(message) ==> message@ == mismatch_text(
            name@,
            debug_text(wanted@),
            debug_text(observed@),
        ),
{
    if same_text(observed, wanted) {
        return Ok(());
    }
    let quoted_wanted = debug_quoted(wanted);
    let quoted_observed = debug_quoted(observed);
    Err(mismatch(name, quoted_wanted.as_str(), quoted_observed.as_str()))
}

fn equal_or_mismatch(name: &str, observed: u32, wanted: u32) -> (r: Result<(), String>)
    ensures
        r is Ok <==> observed == wanted,
        r matches Err(message) ==> message@ == mismatch_text(
            name@,
            decimal(wanted as nat),
            decimal(observed as nat),
        ),
{
    if observed == wanted {
        return Ok(());
    }
    let mut shown_wanted = String::new();
    push_decimal(&mut shown_wanted, wanted as u64);
    assert(shown_wanted@ =~= decimal(wanted as nat));
    let mut shown_observed = String::new();
    push_decimal(&mut shown_observed, observed as u64);
    assert(shown_observed@ =~= decimal(observed as nat));
    Err(mismatch(name, shown_wanted.as_str(), shown_observed.as_str()))
}

/// The first complaint about two texts, if they differ.
pub open spec fn text_complaint(name: Seq<char>, observed: Seq<char>, wanted: Seq<char>) -> Option<
    Seq<char>,
> {
    if observed == wanted {
        None
    } else {
        Some(mismatch_text(name, debug_text(wanted), debug_text(observed)))
    }
}

/// The first complaint about two numbers, if they differ.
pub open spec fn number_complaint(name: Seq<char>, observed: u32, wanted: u32) -> Option<
    Seq<char>,
> {
    if observed == wanted {
        None
    } else {
        Some(mismatch_text(name, decimal(wanted as nat), decimal(observed as nat)))
    }
}

impl StoreManifestV1 {
    /// Where the manifest is.
    pub fn path(data_dir: &str) -> (r: String)
        ensures
            r@ == path_in(data_dir@, MANIFEST_FILE@),
    {
        child_path(data_dir, MANIFEST_FILE)
    }

    /// What is wrong with the manifest itself, if anything.
    pub open spec fn complaint(&self) -> Option<Seq<char>> {
        if !is_uuid(encode_utf8(self.store_id@)) {
            Some("store_id"@ + " must be a canonical lowercase UUID"@)
        } else if !is_uuid(encode_utf8(self.store_generation@)) {
            Some("store_generation"@ + " must be a canonical lowercase UUID"@)
        } else if !is_uuid(encode_utf8(self.filesystem_uuid@)) {
            Some("filesystem_uuid"@ + " must be a canonical lowercase UUID"@)
        } else if self.protocol_version == 0 || self.layout_version == 0 {
            Some("protocol_version and layout_version must be positive"@)
        } else if self.durability_mode@ != "wal"@ {
            Some("durability_mode must be exactly \"wal\""@)
        } else if self.wal_shard_count == 0 || self.stream_lane_count == 0 {
            Some("wal_shard_count and stream_lane_count must be positive"@)
        } else {
            time_complaint(encode_utf8(self.creation_time@))
        }
    }

    /// Check the manifest itself.
    pub fn validate(&self) -> (r: Result<(), String>)
        ensures
            match r {
                Ok(_) => self.complaint() is None,
                Err(message) => self.complaint() == Some(message@),
            },
    {
        if let Err(message) = canonical_uuid("store_id", self.store_id.as_str()) {
            return Err(message);
        }
        if let Err(message) = canonical_uuid("store_generation", self.store_generation.as_str()) {
            return Err(message);
        }
        if let Err(message) = canonical_uuid("filesystem_uuid", self.filesystem_uuid.as_str()) {
            return Err(message);
        }
        if self.protocol_version == 0 || self.layout_version == 0 {
            return Err("protocol_version and layout_version must be positive".to_owned());
        }
        if !same_text(self.durability_mode.as_str(), "wal") {
            return Err("durability_mode must be exactly \"wal\"".to_owned());
        }
        if self.wal_shard_count == 0 || self.stream_lane_count == 0 {
            return Err("wal_shard_count and stream_lane_count must be positive".to_owned());
        }
        canonical_time(self.creation_time.as_str())
    }

    /// The first part that is not as a deployment expects, if any.
    pub open spec fn difference(&self, expected: ExpectedStoreIdentityV1) -> Option<Seq<char>> {
        if self.store_id@ != expected.store_id@ {
            text_complaint("store_id"@, self.store_id@, expected.store_id@)
        } else if self.store_generation@ != expected.store_generation@ {
            text_complaint("store_generation"@, self.store_generation@, expected.store_generation@)
        } else if self.durability_mode@ != expected.durability_mode@ {
            text_complaint("durability_mode"@, self.durability_mode@, expected.durability_mode@)
        } else if self.filesystem_uuid@ != expected.filesystem_uuid@ {
            text_complaint("filesystem_uuid"@, self.filesystem_uuid@, expected.filesystem_uuid@)
        } else if self.protocol_version != expected.protocol_version {
            number_complaint("protocol_version"@, self.protocol_version, expected.protocol_version)
        } else if self.layout_version != expected.layout_version {
            number_complaint("layout_version"@, self.layout_version, expected.layout_version)
        } else if self.wal_shard_count != expected.wal_shard_count {
            number_complaint("wal_shard_count"@, self.wal_shard_count, expected.wal_shard_count)
        } else {
            number_complaint(
                "stream_lane_count"@,
                self.stream_lane_count,
                expected.stream_lane_count,
            )
        }
    }

    /// Compare the manifest with what a deployment expects.
    pub fn compare_expected(&self, expected: &ExpectedStoreIdentityV1) -> (r: Result<(), String>)
        ensures
            match r {
                Ok(_) => self.difference(*expected) is None,
                Err(message) => self.difference(*expected) == Some(message@),
            },
    {
        same_or_mismatch("store_id", self.store_id.as_str(), expected.store_id.as_str())?;
        same_or_mismatch(
            "store_generation",
            self.store_generation.as_str(),
            expected.store_generation.as_str(),
        )?;
        same_or_mismatch(
            "durability_mode",
            self.durability_mode.as_str(),
            expected.durability_mode.as_str(),
        )?;
        same_or_mismatch(
            "filesystem_uuid",
            self.filesystem_uuid.as_str(),
            expected.filesystem_uuid.as_str(),
        )?;
        equal_or_mismatch("protocol_version", self.protocol_version, expected.protocol_version)?;
        equal_or_mismatch("layout_version", self.layout_version, expected.layout_version)?;
        equal_or_mismatch("wal_shard_count", self.wal_shard_count, expected.wal_shard_count)?;
        equal_or_mismatch("stream_lane_count", self.stream_lane_count, expected.stream_lane_count)
    }
}

/// A manifest agrees with an expectation exactly if all parts that both have are
/// the same.
pub proof fn law_agreement_is_equality(
    manifest: StoreManifestV1,
    expected: ExpectedStoreIdentityV1,
)
    ensures
        manifest.difference(expected) is None <==> {
            &&& manifest.store_id@ == expected.store_id@
            &&& manifest.store_generation@ == expected.store_generation@
            &&& manifest.protocol_version == expected.protocol_version
            &&& manifest.layout_version == expected.layout_version
            &&& manifest.durability_mode@ == expected.durability_mode@
            &&& manifest.wal_shard_count == expected.wal_shard_count
            &&& manifest.stream_lane_count == expected.stream_lane_count
            &&& manifest.filesystem_uuid@ == expected.filesystem_uuid@
        },
{
}

/// A JSON document, as far as its keys go.
pub enum JsonTree {
    Leaf,
    List(Vec<JsonTree>),
    Object(Vec<JsonEntry>),
}

/// One key of an object with its value.
pub struct JsonEntry {
    pub key: String,
    pub value: JsonTree,
}

/// Whether one of the first `n` entries has a key.
pub open spec fn has_key_before(entries: Seq<JsonEntry>, n: int, key: Seq<char>) -> bool {
    exists|k: int| 0 <= k < n && (#[trigger] entries[k]).key@ == key
}

/// The first key in a document that stands in its object for the second time.
pub open spec fn repeated_key(tree: JsonTree) -> Option<Seq<char>>
    decreases tree, 0nat,
{
    match tree {
        JsonTree::Leaf => None,
        JsonTree::List(items) => repeated_in_list(items, 0),
        JsonTree::Object(entries) => repeated_in_object(entries, 0),
    }
}

/// The first repeated key from an item of a list on.
pub open spec fn repeated_in_list(items: Vec<JsonTree>, from: nat) -> Option<Seq<char>>
    decreases items, items@.len() - from,
{
    if from >= items@.len() {
        None
    } else {
        match repeated_key(items@[from as int]) {
            Some(key) => Some(key),
            None => repeated_in_list(items, from + 1),
        }
    }
}

/// The first repeated key from an entry of an object on.
pub open spec fn repeated_in_object(entries: Vec<JsonEntry>, from: nat) -> Option<Seq<char>>
    decreases entries, entries@.len() - from,
{
    if from >= entries@.len() {
        None
    } else if has_key_before(entries@, from as int, entries@[from as int].key@) {
        Some(entries@[from as int].key@)
    } else {
        match repeated_key(entries@[from as int].value) {
            Some(key) => Some(key),
            None => repeated_in_object(entries, from + 1),
        }
    }
}

/// Whether one of the first `n` entries of an object has a key.
pub fn is_repeated(entries: &Vec<JsonEntry>, n: usize, key: &str) -> (r: bool)
    requires
        n <= entries@.len(),
    ensures
        r == has_key_before(entries@, n as int, key@),
{
    let mut k: usize = 0;
    while k < n
        invariant
            k <= n <= entries@.len(),
            forall|j: int| 0 <= j < k ==> (#[trigger] entries@[j]).key@ != key@,
        decreases n - k,
    {
        if same_text(entries[k].key.as_str(), key) {
            assert(entries@[k as int].key@ == key@);
            return true;
        }
        k = k + 1;
    }
    false
}

/// Find the first key in a document that stands in its object for the second
/// time, at any depth.
pub fn find_repeated_key(tree: &JsonTree) -> (r: Option<String>)
    ensures
        match r {
            Some(key) => repeated_key(*tree) == Some(key@),
            None => repeated_key(*tree) is None,
        },
    decreases tree, 0nat,
{
    match tree {
        JsonTree::Leaf => None,
        JsonTree::List(items) => find_in_list(items, 0),
        JsonTree::Object(entries) => find_in_object(entries, 0),
    }
}

fn find_in_list(items: &Vec<JsonTree>, from: usize) -> (r: Option<String>)
    requires
        from <= items@.len(),
    ensures
        match r {
            Some(key) => repeated_in_list(*items, from as nat) == Some(key@),
            None => repeated_in_list(*items, from as nat) is None,
        },
    decreases items, items@.len() - from,
{
    if from >= items.len() {
        return None;
    }
    match find_repeated_key(&items[from]) {
        Some(key) => Some(key),
        None => find_in_list(items, from + 1),
    }
}

fn find_in_object(entries: &Vec<JsonEntry>, from: usize) -> (r: Option<String>)
    requires
        from <= entries@.len(),
    ensures
        match r {
            Some(key) => repeated_in_object(*entries, from as nat) == Some(key@),
            None => repeated_in_object(*entries, from as nat) is None,
        },
    decreases entries, entries@.len() - from,
{
    if from >= entries.len() {
        return None;
    }
    if is_repeated(entries, from, entries[from].key.as_str()) {
        return Some(entries[from].key.clone());
    }
    match find_repeated_key(&entries[from].value) {
        Some(key) => Some(key),
        None => find_in_object(entries, from + 1),
    }
}

/// Whether no object in a document, at any depth, has a key twice.
pub open spec fn keys_are_distinct(tree: JsonTree) -> bool
    decreases tree,
{
    match tree {
        JsonTree::Leaf => true,
        JsonTree::List(items) => forall|i: int|
            0 <= i < items@.len() ==> keys_are_distinct(#[trigger] items@[i]),
        JsonTree::Object(entries) => {
            &&& forall|i: int, j: int|
                0 <= i < j < entries@.len() ==> (#[trigger] entries@[i]).key@ != (
                #[trigger] entries@[j]).key@
            &&& forall|i: int|
                0 <= i < entries@.len() ==> keys_are_distinct((#[trigger] entries@[i]).value)
        },
    }
}

/// A document is accepted exactly if no object in it, at any depth, has a key
/// twice.
pub proof fn law_repeated_keys_are_found(tree: JsonTree)
    ensures
        repeated_key(tree) is None <==> keys_are_distinct(tree),
    decreases tree, 0nat,
{
    match tree {
        JsonTree::Leaf => {},
        JsonTree::List(items) => {
            lemma_repeated_in_list(items, 0);
        },
        JsonTree::Object(entries) => {
            lemma_repeated_in_object(entries, 0);
            if repeated_in_object(entries, 0) is None {
                assert forall|i: int, j: int| 0 <= i < j < entries@.len() implies (
                #[trigger] entries@[i]).key@ != (#[trigger] entries@[j]).key@ by {
                    assert(!has_key_before(entries@, j, entries@[j].key@));
                }
            }
        },
    }
}

proof fn lemma_repeated_in_list(items: Vec<JsonTree>, from: nat)
    ensures
        repeated_in_list(items, from) is None <==> forall|i: int|
            from <= i < items@.len() ==> keys_are_distinct(#[trigger] items@[i]),
    decreases items, items@.len() - from,
{
    if from < items@.len() {
        law_repeated_keys_are_found(items@[from as int]);
        lemma_repeated_in_list(items, from + 1);
    }
}

proof fn lemma_repeated_in_object(entries: Vec<JsonEntry>, from: nat)
    ensures
        repeated_in_object(entries, from) is None <==> forall|i: int|
            from <= i < entries@.len() ==> keys_are_distinct((#[trigger] entries@[i]).value)
                && !has_key_before(entries@, i, entries@[i].key@),
    decreases entries, entries@.len() - from,
{
    if from < entries@.len() {
        law_repeated_keys_are_found(entries@[from as int].value);
        lemma_repeated_in_object(entries, from + 1);
    }
}

/// The lock that a process holds on a data directory.
pub const LOCK_FILE: &'static str = ".durable-streams.lock";

/// Why a data directory is not pristine, if so: apart from the lock, nothing may
/// be in it.
pub open spec fn bootstrap_complaint(
    data_dir: Seq<char>,
    exists: bool,
    names: Seq<Seq<char>>,
) -> Option<Seq<char>> {
    if exists {
        Some("store manifest already exists: "@ + path_in(data_dir, MANIFEST_FILE@))
    } else {
        match first_other(names, 0) {
            Some(name) => Some(
                "bootstrap-store refuses non-empty data directory: found "@ + path_in(
                    data_dir,
                    name,
                ),
            ),
            None => None,
        }
    }
}

/// The first name from a place on that is not that of the lock.
pub open spec fn first_other(names: Seq<Seq<char>>, from: nat) -> Option<Seq<char>>
    decreases names.len() - from,
{
    if from >= names.len() {
        None
    } else if names[from as int] != LOCK_FILE@ {
        Some(names[from as int])
    } else {
        first_other(names, from + 1)
    }
}

impl StoreManifestV1 {
    /// Check that the manifest can be created: it is in order, and the data
    /// directory is pristine. Hands out the name under which it is written first.
    pub fn plan_bootstrap(
        &self,
        data_dir: &str,
        exists: bool,
        names: &Vec<String>,
        process: u32,
    ) -> (r: Result<String, String>)
        ensures
            match r {
                Ok(temp) => {
                    &&& self.complaint() is None
                    &&& bootstrap_complaint(data_dir@, exists, texts(names@)) is None
                    &&& temp@ == path_in(
                        data_dir@,
                        "."@ + MANIFEST_FILE@ + ".tmp-"@ + decimal(process as nat),
                    )
                },
                Err(message) => if self.complaint() is Some {
                    self.complaint() == Some(message@)
                } else {
                    bootstrap_complaint(data_dir@, exists, texts(names@)) == Some(message@)
                },
            },
    {
        if let Err(message) = self.validate() {
            return Err(message);
        }
        if exists {
            let path = StoreManifestV1::path(data_dir);
            return Err(joined("store manifest already exists: ", path.as_str()));
        }
        let ghost all = texts(names@);
        let mut i: usize = 0;
        while i < names.len()
            invariant
                i <= names@.len(),
                all == texts(names@),
                !exists,
                self.complaint() is None,
                first_other(all, 0) == first_other(all, i as nat),
            decreases names.len() - i,
        {
            assert(all[i as int] == names@[i as int]@);
            if !same_text(names[i].as_str(), LOCK_FILE) {
                let path = child_path(data_dir, names[i].as_str());
                return Err(
                    joined(
                        "bootstrap-store refuses non-empty data directory: found ",
                        path.as_str(),
                    ),
                );
            }
            i = i + 1;
        }
        let mut name = joined(".", MANIFEST_FILE);
        name.append(".tmp-");
        push_decimal(&mut name, process as u64);
        Ok(child_path(data_dir, name.as_str()))
    }
}

/// A manifest is sound exactly if its three identities are UUIDs, its numbers are
/// not zero, its durability is the log's, and its time of creation is a time.
pub proof fn law_sound_manifest_passes(manifest: StoreManifestV1)
    ensures
        manifest.complaint() is None <==> {
            &&& is_uuid(encode_utf8(manifest.store_id@))
            &&& is_uuid(encode_utf8(manifest.store_generation@))
            &&& is_uuid(encode_utf8(manifest.filesystem_uuid@))
            &&& manifest.protocol_version > 0
            &&& manifest.layout_version > 0
            &&& manifest.durability_mode@ == "wal"@
            &&& manifest.wal_shard_count > 0
            &&& manifest.stream_lane_count > 0
            &&& has_time_shape(encode_utf8(manifest.creation_time@))
            &&& is_time(encode_utf8(manifest.creation_time@))
        },
{
}

/// A store is set up only in a directory without a manifest and without any file
/// but the lock.
pub proof fn law_bootstrap_needs_an_empty_directory(
    data_dir: Seq<char>,
    exists: bool,
    names: Seq<Seq<char>>,
)
    ensures
        bootstrap_complaint(data_dir, exists, names) is None <==> !exists && forall|i: int|
            0 <= i < names.len() ==> #[trigger] names[i] == LOCK_FILE@,
{
    lemma_first_other(names, 0);
}

proof fn lemma_first_other(names: Seq<Seq<char>>, from: nat)
    ensures
        first_other(names, from) is None <==> forall|i: int|
            from <= i < names.len() ==> #[trigger] names[i] == LOCK_FILE@,
        first_other(names, from) matches Some(name) ==> names.contains(name) && name != LOCK_FILE@,
    decreases names.len() - from,
{
    if from < names.len() {
        lemma_first_other(names, from + 1);
        if names[from as int] == LOCK_FILE@ && first_other(names, from + 1) is None {
            assert forall|i: int| from <= i < names.len() implies #[trigger] names[i]
                == LOCK_FILE@ by {}
        }
    }
}

/// A month has as many days as the calendar gives it: the months of a year have
/// three hundred and sixty-five days, and one more in a leap year; four hundred
/// years have ninety-seven of those.
pub proof fn law_months_make_a_year(year: int)
    ensures
        days_in(year, 1) + days_in(year, 2) + days_in(year, 3) + days_in(year, 4) + days_in(year, 5)
            + days_in(year, 6) + days_in(year, 7) + days_in(year, 8) + days_in(year, 9) + days_in(
            year,
            10,
        ) + days_in(year, 11) + days_in(year, 12) == (if days_in(year, 2) == 29 {
            366int
        } else {
            365
        }),
        days_in(year, 7) == 31 && days_in(year, 8) == 31,
        year % 400 == 0 ==> days_in(year, 2) == 29,
        year % 100 == 0 && year % 400 != 0 ==> days_in(year, 2) == 28,
        year % 4 == 0 && year % 100 != 0 ==> days_in(year, 2) == 29,
        year % 4 != 0 ==> days_in(year, 2) == 28,
        days_in(year, 0) == 0 && days_in(year, 13) == 0,
{
}

/// Two digits of a number.
pub open spec fn two_digit_bytes(n: int) -> Seq<u8> {
    seq![(48 + n / 10) as u8, (48 + n % 10) as u8]
}

/// A creation time as it is written.
pub open spec fn time_bytes(
    year: int,
    month: int,
    day: int,
    hour: int,
    minute: int,
    second: int,
) -> Seq<u8> {
    two_digit_bytes(year / 100) + two_digit_bytes(year % 100) + seq![45u8] + two_digit_bytes(month)
        + seq![45u8] + two_digit_bytes(day) + seq![84u8] + two_digit_bytes(hour) + seq![58u8]
        + two_digit_bytes(minute) + seq![58u8] + two_digit_bytes(second) + seq![90u8]
}

/// A time that is written out in full is accepted exactly if the calendar and the
/// clock have it.
pub proof fn law_times_are_read_as_written(
    year: int,
    month: int,
    day: int,
    hour: int,
    minute: int,
    second: int,
)
    requires
        0 <= year < 10000,
        0 <= month < 100,
        0 <= day < 100,
        0 <= hour < 100,
        0 <= minute < 100,
        0 <= second < 100,
    ensures
        has_time_shape(time_bytes(year, month, day, hour, minute, second)),
        is_time(time_bytes(year, month, day, hour, minute, second)) <==> {
            &&& year > 0
            &&& 1 <= month <= 12
            &&& 1 <= day <= days_in(year, month)
            &&& hour < 24
            &&& minute < 60
            &&& second < 60
        },
{
    let bytes = time_bytes(year, month, day, hour, minute, second);
    assert(bytes.len() == 20);
    lemma_two_digits(bytes, 0, year / 100);
    lemma_two_digits(bytes, 2, year % 100);
    lemma_two_digits(bytes, 5, month);
    lemma_two_digits(bytes, 8, day);
    lemma_two_digits(bytes, 11, hour);
    lemma_two_digits(bytes, 14, minute);
    lemma_two_digits(bytes, 17, second);
    assert(bytes[4] == 45 && bytes[7] == 45 && bytes[10] == 84 && bytes[13] == 58 && bytes[16]
        == 58 && bytes[19] == 90);
}

proof fn lemma_two_digits(bytes: Seq<u8>, at: int, n: int)
    requires
        0 <= n < 100,
        0 <= at < bytes.len() - 1,
        bytes[at] == two_digit_bytes(n)[0],
        bytes[at + 1] == two_digit_bytes(n)[1],
    ensures
        two_digits(bytes, at) == n,
        48 <= bytes[at] <= 57,
        48 <= bytes[at + 1] <= 57,
{
}

/// A UUID is five groups of small hexadecimal digits with hyphens between them:
/// eight, three times four, and twelve.
pub proof fn law_uuid_is_five_groups(
    a: Seq<u8>,
    b: Seq<u8>,
    c: Seq<u8>,
    d: Seq<u8>,
    e: Seq<u8>,
    bytes: Seq<u8>,
)
    requires
        a.len() == 8 && b.len() == 4 && c.len() == 4 && d.len() == 4 && e.len() == 12,
        bytes == a + seq![45u8] + b + seq![45u8] + c + seq![45u8] + d + seq![45u8] + e,
    ensures
        is_uuid(bytes) <==> forall|k: int|
            0 <= k < (a + b + c + d + e).len() ==> is_small_hex(#[trigger] (a + b + c + d + e)[k]),
        forall|k: int| 65 <= k <= 90 && #[trigger] bytes.contains(k as u8) ==> !is_uuid(bytes),
{
    let digits = a + b + c + d + e;
    assert(bytes.len() == 36 && digits.len() == 32);
    if is_uuid(bytes) {
        assert forall|k: int| 0 <= k < digits.len() implies is_small_hex(#[trigger] digits[k]) by {
            let at = if k < 8 {
                k
            } else if k < 12 {
                k + 1
            } else if k < 16 {
                k + 2
            } else if k < 20 {
                k + 3
            } else {
                k + 4
            };
            assert(digits[k] == bytes[at]);
        }
    }
    if forall|k: int| 0 <= k < digits.len() ==> is_small_hex(#[trigger] digits[k]) {
        assert forall|i: int| 0 <= i < 36 implies if is_hyphen_place(i) {
            #[trigger] bytes[i] == 45
        } else {
            is_small_hex(bytes[i])
        } by {
            if !is_hyphen_place(i) {
                let k = if i < 8 {
                    i
                } else if i < 13 {
                    i - 1
                } else if i < 18 {
                    i - 2
                } else if i < 23 {
                    i - 3
                } else {
                    i - 4
                };
                assert(digits[k] == bytes[i]);
            }
        }
    }
    assert forall|k: int| 65 <= k <= 90 && #[trigger] bytes.contains(
        k as u8,
    ) implies !is_uuid(bytes) by {
        let at = choose|at: int| 0 <= at < bytes.len() && bytes[at] == k as u8;
        if is_uuid(bytes) {
            assert(bytes[at] == 45 || is_small_hex(bytes[at]));
        }
    }
}

} // verus!
