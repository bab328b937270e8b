//! Change-driven republication: a stove's discovery configuration is derived
//! from its status, and published again only when it differs from the last one
//! published for that stove.
use vstd::prelude::*;
use crate::misc::{slug_of, Sluggable};
use crate::stove::Controls;
use crate::text::{decimal, decimal_string, digit_char, push_all};

verus! {

/// The first part of every topic of a stove.
pub const COMMON_BASE_TOPIC: &'static str = "rika-firenet";

/// What the library reads of a stove's status report.
#[derive(Clone, Debug)]
pub struct StoveStatus {
    pub stove_id: String,
    pub name: String,
    pub oem: String,
    pub stove_type: String,
    /// The main board's firmware version, as the stove reports it (`223`).
    pub main_board_version: u32,
    pub controls: Controls,
}

/// The naming of a stove's entities, derived from its status alone: two equal
/// values give identical entity configuration.
#[derive(Clone, Debug)]
pub struct StoveMetadata {
    pub manufacturer: String,
    pub model: String,
    pub name: String,
    pub id: String,
    pub unique_id: String,
    pub object_id: String,
    pub version: String,
    pub topic_prefix: String,
}

pub ghost struct MetadataView {
    pub manufacturer: Seq<char>,
    pub model: Seq<char>,
    pub name: Seq<char>,
    pub id: Seq<char>,
    pub unique_id: Seq<char>,
    pub object_id: Seq<char>,
    pub version: Seq<char>,
    pub topic_prefix: Seq<char>,
}

impl View for StoveMetadata {
    type V = MetadataView;

    open spec fn view(&self) -> MetadataView {
        MetadataView {
            manufacturer: self.manufacturer@,
            model: self.model@,
            name: self.name@,
            id: self.id@,
            unique_id: self.unique_id@,
            object_id: self.object_id@,
            version: self.version@,
            topic_prefix: self.topic_prefix@,
        }
    }
}

/// A firmware version written `<first digit>.<other digits>` (`223` is `2.23`).
pub open spec fn version_text(v: nat) -> Seq<char> {
    let digits = decimal(v);
    digits.subrange(0, 1) + seq!['.'] + digits.subrange(1, digits.len() as int)
}

/// The metadata that a status derives.
pub open spec fn metadata_of(s: StoveStatus) -> MetadataView {
    let unique_id = slug_of(s.oem@ + seq!['_'] + s.stove_type@ + seq!['_'] + s.name@ + seq!['-'] + s.stove_id@);
    MetadataView {
        manufacturer: s.oem@,
        model: s.stove_type@,
        name: s.name@,
        id: s.stove_id@,
        unique_id,
        object_id: slug_of(s.oem@ + seq!['_'] + s.stove_type@ + seq!['_'] + s.name@),
        version: version_text(s.main_board_version as nat),
        topic_prefix: COMMON_BASE_TOPIC@ + seq!['/'] + unique_id,
    }
}

proof fn lemma_decimal_nonempty(n: nat)
    ensures
        decimal(n).len() >= 1,
    decreases n,
{
    if n >= 10 {
        lemma_decimal_nonempty(n / 10);
    }
}

impl StoveMetadata {
    /// The metadata of the stove whose status is `status`.
    pub fn from_status(status: &StoveStatus) -> (r: StoveMetadata)
        ensures
            r@ == metadata_of(*status),
    {
        let mut base = status.oem.clone();
        base.push('_');
        push_all(&mut base, status.stove_type.as_str());
        base.push('_');
        push_all(&mut base, status.name.as_str());
        let object_id = base.slug();
        assert(base@ =~= status.oem@ + seq!['_'] + status.stove_type@ + seq!['_'] + status.name@);
        base.push('-');
        push_all(&mut base, status.stove_id.as_str());
        let unique_id = base.slug();

        let digits = decimal_string(status.main_board_version as u64);
        proof {
            lemma_decimal_nonempty(status.main_board_version as nat);
        }
        let n = digits.unicode_len();
        let mut version = String::from_str(digits.as_str().substring_char(0, 1));
        version.push('.');
        push_all(&mut version, digits.as_str().substring_char(1, n));

        let mut topic_prefix = String::from_str(COMMON_BASE_TOPIC);
        topic_prefix.push('/');
        push_all(&mut topic_prefix, unique_id.as_str());

        let r = StoveMetadata {
            manufacturer: status.oem.clone(),
            model: status.stove_type.clone(),
            name: status.name.clone(),
            id: status.stove_id.clone(),
            unique_id,
            object_id,
            version,
            topic_prefix,
        };
        proof {
            let s = *status;
            assert(base@ =~= s.oem@ + seq!['_'] + s.stove_type@ + seq!['_'] + s.name@ + seq!['-']
                + s.stove_id@);
            assert(r@.version =~= version_text(s.main_board_version as nat));
            assert(r@.topic_prefix =~= metadata_of(s).topic_prefix);
        }
        r
    }

    /// A copy of the metadata.
    pub fn duplicate(&self) -> (r: StoveMetadata)
        ensures
            r@ == self@,
    {
        StoveMetadata {
            manufacturer: self.manufacturer.clone(),
            model: self.model.clone(),
            name: self.name.clone(),
            id: self.id.clone(),
            unique_id: self.unique_id.clone(),
            object_id: self.object_id.clone(),
            version: self.version.clone(),
            topic_prefix: self.topic_prefix.clone(),
        }
    }

    /// Whether the two would configure the same entities.
    pub fn same_configuration(&self, other: &StoveMetadata) -> (r: bool)
        ensures
            r == (self@ == other@),
    {
        self.manufacturer == other.manufacturer && self.model == other.model && self.name
            == other.name && self.id == other.id && self.unique_id == other.unique_id
            && self.object_id == other.object_id && self.version == other.version
            && self.topic_prefix == other.topic_prefix
    }
}

/// Whether the configuration `snapshot` must be published for `key`, given
/// the last snapshots published: when none was published for `key`, or when
/// the last one differs.
pub open spec fn publish_needed(
    cache: Map<Seq<char>, MetadataView>,
    key: Seq<char>,
    snapshot: MetadataView,
) -> bool {
    !(cache.contains_key(key) && cache[key] == snapshot)
}

/// The last snapshot published for each key.
pub struct Reconciler {
    entries: Vec<(String, StoveMetadata)>,
    model: Ghost<Map<Seq<char>, MetadataView>>,
}

impl Reconciler {
    pub closed spec fn cache(&self) -> Map<Seq<char>, MetadataView> {
        self.model@
    }

    pub closed spec fn wf(&self) -> bool {
        &&& forall|i: int|
            0 <= i < self.entries@.len() ==> {
                &&& self.model@.contains_key(#[trigger] self.entries@[i].0@)
                &&& self.model@[self.entries@[i].0@] == self.entries@[i].1@
            }
        &&& forall|i: int, j: int|
            0 <= i < self.entries@.len() && 0 <= j < self.entries@.len() && i != j
                ==> #[trigger] self.entries@[i].0@ != #[trigger] self.entries@[j].0@
        &&& forall|k: Seq<char>|
            #[trigger] self.model@.contains_key(k) ==> exists|i: int|
                0 <= i < self.entries@.len() && #[trigger] self.entries@[i].0@ == k
    }

    /// Nothing published yet.
    pub fn new() -> (r: Reconciler)
        ensures
            r.wf(),
            r.cache() == Map::<Seq<char>, MetadataView>::empty(),
    {
        Reconciler { entries: Vec::new(), model: Ghost(Map::empty()) }
    }

    fn find(&self, key: &String) -> (r: Option<usize>)
        requires
            self.wf(),
        ensures
            match r {
                Some(i) => i < self.entries@.len() && self.entries@[i as int].0@ == key@,
                None => !self.cache().contains_key(key@),
            },
    {
        let mut i: usize = 0;
        while i < self.entries.len()
            invariant
                self.wf(),
                i <= self.entries@.len(),
                forall|j: int| 0 <= j < i ==> self.entries@[j].0@ != key@,
            decreases self.entries@.len() - i,
        {
            if self.entries[i].0 == *key {
                return Some(i);
            }
            i = i + 1;
        }
        None
    }

    /// Takes a new status for `key`: derives its snapshot, says whether the
    /// configuration must be published again, and remembers the snapshot as
    /// the last one for `key`. The status data itself is to be published
    /// whatever the answer.
    pub fn reconcile(&mut self, key: String, status: &StoveStatus) -> (r: (bool, StoveMetadata))
        requires
            old(self).wf(),
        ensures
            final(self).wf(),
            r.1@ == metadata_of(*status),
            r.0 == publish_needed(old(self).cache(), key@, r.1@),
            final(self).cache() == old(self).cache().insert(key@, r.1@),
    {
        let snapshot = StoveMetadata::from_status(status);
        let ghost old_model = self.model@;
        let ghost old_entries = self.entries@;
        let ghost k = key@;
        let publish = match self.find(&key) {
            Some(i) => {
                let changed = !self.entries[i].1.same_configuration(&snapshot);
                self.entries.set(i, (key, snapshot.duplicate()));
                self.model = Ghost(old_model.insert(k, snapshot@));
                assert forall|a: int, b: int|
                    0 <= a < self.entries@.len() && 0 <= b < self.entries@.len() && a != b
                    implies #[trigger] self.entries@[a].0@ != #[trigger] self.entries@[b].0@ by {
                    assert(old_entries[a].0@ != old_entries[b].0@);
                }
                assert forall|a: int| 0 <= a < self.entries@.len() implies {
                    &&& self.model@.contains_key(#[trigger] self.entries@[a].0@)
                    &&& self.model@[self.entries@[a].0@] == self.entries@[a].1@
                } by {
                    if a != i {
                        assert(old_entries[a].0@ != old_entries[i as int].0@);
                    }
                }
                assert forall|q: Seq<char>| #[trigger] self.model@.contains_key(q) implies exists|j: int|
                    0 <= j < self.entries@.len() && #[trigger] self.entries@[j].0@ == q by {
                    if q != k {
                        let j = choose|j: int| 0 <= j < old_entries.len() && #[trigger] old_entries[j].0@ == q;
                        assert(self.entries@[j].0@ == q);
                    } else {
                        assert(self.entries@[i as int].0@ == q);
                    }
                }
                changed
            },
            None => {
                self.entries.push((key, snapshot.duplicate()));
                self.model = Ghost(old_model.insert(k, snapshot@));
                assert forall|q: Seq<char>| #[trigger] self.model@.contains_key(q) implies exists|j: int|
                    0 <= j < self.entries@.len() && #[trigger] self.entries@[j].0@ == q by {
                    if q != k {
                        let j = choose|j: int| 0 <= j < old_entries.len() && #[trigger] old_entries[j].0@ == q;
                        assert(self.entries@[j].0@ == q);
                    } else {
                        assert(self.entries@[old_entries.len() as int].0@ == q);
                    }
                }
                true
            },
        };
        (publish, snapshot)
    }
}

proof fn lemma_digit_char_injective(x: nat, y: nat)
    requires
        x < 10,
        y < 10,
        digit_char(x) == digit_char(y),
    ensures
        x == y,
{
}

proof fn lemma_decimal_injective(a: nat, b: nat)
    requires
        decimal(a) == decimal(b),
    ensures
        a == b,
    decreases a,
{
    lemma_decimal_nonempty(a / 10);
    lemma_decimal_nonempty(b / 10);
    if a >= 10 && b >= 10 {
        assert(decimal(a).drop_last() == decimal(a / 10));
        assert(decimal(b).drop_last() == decimal(b / 10));
        lemma_decimal_injective(a / 10, b / 10);
        assert(decimal(a).last() == digit_char(a % 10));
        assert(decimal(b).last() == digit_char(b % 10));
        lemma_digit_char_injective(a % 10, b % 10);
    } else if a < 10 && b < 10 {
        assert(decimal(a)[0] == digit_char(a));
        assert(decimal(b)[0] == digit_char(b));
        lemma_digit_char_injective(a, b);
    } else if a >= 10 {
        assert(decimal(a).len() >= 2);
    } else if b >= 10 {
        assert(decimal(b).len() >= 2);
    }
}

proof fn lemma_version_text_injective(a: nat, b: nat)
    requires
        a != b,
    ensures
        version_text(a) != version_text(b),
{
    lemma_decimal_nonempty(a);
    lemma_decimal_nonempty(b);
    let da = decimal(a);
    let db = decimal(b);
    if version_text(a) == version_text(b) {
        let t = version_text(a);
        assert(da =~= t.subrange(0, 1) + t.subrange(2, t.len() as int));
        assert(db =~= t.subrange(0, 1) + t.subrange(2, t.len() as int));
        lemma_decimal_injective(a, b);
    }
}

/// Reconciling a key twice with the same derived configuration publishes it
/// only the first time.
pub proof fn lemma_unchanged_snapshot_not_republished(
    cache: Map<Seq<char>, MetadataView>,
    key: Seq<char>,
    snapshot: MetadataView,
)
    ensures
        !publish_needed(cache.insert(key, snapshot), key, snapshot),
{
}

/// A status that differs from the previous one only in what the configuration
/// does not depend on (its controls: temperatures, power, modes) derives the
/// same snapshot, so the configuration is not published again.
pub proof fn lemma_transient_change_not_republished(
    cache: Map<Seq<char>, MetadataView>,
    key: Seq<char>,
    before: StoveStatus,
    after: StoveStatus,
)
    requires
        before.stove_id@ == after.stove_id@,
        before.name@ == after.name@,
        before.oem@ == after.oem@,
        before.stove_type@ == after.stove_type@,
        before.main_board_version == after.main_board_version,
    ensures
        metadata_of(after) == metadata_of(before),
        !publish_needed(cache.insert(key, metadata_of(before)), key, metadata_of(after)),
{
}

/// A status whose firmware version differs from the previous one derives
/// another snapshot, so the configuration is published again.
pub proof fn lemma_firmware_change_republished(
    cache: Map<Seq<char>, MetadataView>,
    key: Seq<char>,
    before: StoveStatus,
    after: StoveStatus,
)
    requires
        before.main_board_version != after.main_board_version,
    ensures
        publish_needed(cache.insert(key, metadata_of(before)), key, metadata_of(after)),
{
    lemma_version_text_injective(before.main_board_version as nat, after.main_board_version as nat);
}

} // verus!
