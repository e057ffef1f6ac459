//! The validator that finds names that occur more than once in a stream. It
//! needs the whole stream before it can judge a record, so it works in two
//! passes: the first collects the names, the second judges each record
//! against what was collected.

use std::collections::HashMap;
use vstd::multiset::Multiset;
use vstd::prelude::*;
use vstd::slice::slice_to_vec;
use vstd::string::StringExecFns;

use crate::bytes::bytes_equal;
use crate::fastq::record::{Record, RecordView};
use crate::text::{byte_text, push_bytes};
use crate::validators::error::{Error, ErrorView, LineType};
use crate::validators::level::ValidationLevel;
use crate::validators::single::reported;

verus! {

broadcast use vstd::multiset::group_multiset_axioms;

/// The key under which a name is filed.
pub closed spec fn name_key(name: Seq<u8>) -> u64
    decreases name.len(),
{
    if name.len() == 0 {
        0xcbf2_9ce4_8422_2325
    } else {
        (name_key(name.drop_last()) ^ (name.last() as u64)).wrapping_mul(0x0000_0100_0000_01b3)
    }
}

fn key_of(name: &[u8]) -> (key: u64)
    ensures
        key == name_key(name@),
{
    let mut key: u64 = 0xcbf2_9ce4_8422_2325;
    let mut i: usize = 0;
    while i < name.len()
        invariant
            i <= name.len(),
            key == name_key(name@.take(i as int)),
        decreases name.len() - i,
    {
        proof {
            assert(name@.take(i + 1).drop_last() =~= name@.take(i as int));
        }
        key = (key ^ (name[i] as u64)).wrapping_mul(0x0000_0100_0000_01b3);
        i += 1;
    }
    proof {
        assert(name@.take(i as int) =~= name@);
    }
    key
}

/// A name that was collected, and whether it was collected more than once.
struct Seen {
    name: Vec<u8>,
    repeated: bool,
}

/// Whether the names filed under one key are filed correctly: each under
/// its own key, none twice, each marked as repeated exactly when it was
/// collected at least twice.
spec fn filed(names: Multiset<Seq<u8>>, key: u64, bucket: Seq<Seen>) -> bool {
    &&& forall|i: int|
        0 <= i < bucket.len() ==> {
            &&& name_key((#[trigger] bucket[i]).name@) == key
            &&& names.count(bucket[i].name@) >= 1
            &&& bucket[i].repeated == (names.count(bucket[i].name@) >= 2)
        }
    &&& forall|i: int, j: int|
        0 <= i < j < bucket.len() ==> (#[trigger] bucket[i]).name@ != (#[trigger] bucket[j]).name@
}

/// Whether `name` stands at `at` in the bucket.
spec fn stands_at(bucket: Seq<Seen>, name: Seq<u8>, at: int) -> bool {
    0 <= at < bucket.len() && bucket[at].name@ == name
}

/// Whether the names are filed correctly: each bucket holds names of its
/// key, and each name that was collected stands in the bucket of its key.
spec fn all_filed(names: Multiset<Seq<u8>>, buckets: Map<u64, Vec<Seen>>) -> bool {
    &&& forall|key: u64| #[trigger] buckets.contains_key(key) ==> filed(names, key, buckets[key]@)
    &&& forall|name: Seq<u8>|
        names.count(name) >= 1 ==> {
            &&& buckets.contains_key(#[trigger] name_key(name))
            &&& exists|at: int| stands_at(buckets[name_key(name)]@, name, at)
        }
}

/// Whether `bucket` is `before` with `name` collected once more at `at`:
/// marked as repeated where it stood, or added at the end.
spec fn collected(before: Seq<Seen>, bucket: Seq<Seen>, name: Seq<u8>, at: int) -> bool {
    &&& 0 <= at < bucket.len()
    &&& bucket[at].name@ == name
    &&& bucket[at].repeated == (at < before.len())
    &&& bucket.len() == if at < before.len() {
        before.len()
    } else {
        before.len() + 1
    }
    &&& forall|i: int| 0 <= i < before.len() && i != at ==> #[trigger] bucket[i] == before[i]
}

/// Where `name` stands in a bucket that is filed correctly, it was
/// collected, and where it stands nowhere in the bucket of its key, it was
/// not.
proof fn lemma_position(
    names: Multiset<Seq<u8>>,
    buckets: Map<u64, Vec<Seen>>,
    bucket: Seq<Seen>,
    name: Seq<u8>,
    at: int,
)
    requires
        all_filed(names, buckets),
        buckets.contains_key(name_key(name)) ==> bucket == buckets[name_key(name)]@,
        !buckets.contains_key(name_key(name)) ==> bucket.len() == 0,
        0 <= at <= bucket.len(),
        at < bucket.len() ==> bucket[at].name@ == name,
        forall|i: int| 0 <= i < at ==> (#[trigger] bucket[i]).name@ != name,
    ensures
        at < bucket.len() <==> names.count(name) >= 1,
        at < bucket.len() ==> bucket[at].repeated == (names.count(name) >= 2),
        forall|i: int| 0 <= i < bucket.len() && i != at ==> (#[trigger] bucket[i]).name@ != name,
{
    let key = name_key(name);
    if at < bucket.len() {
        assert(buckets.contains_key(key));
        assert(filed(names, key, bucket));
        assert(names.count(bucket[at].name@) >= 1);
        assert forall|i: int| 0 <= i < bucket.len() && i != at implies (#[trigger] bucket[i]).name@
            != name by {
            if i < at {
                assert(bucket[i].name@ != bucket[at].name@);
            } else {
                assert(bucket[at].name@ != bucket[i].name@);
            }
        }
    } else if names.count(name) >= 1 {
        assert(buckets.contains_key(name_key(name)));
        let w = choose|w: int| stands_at(buckets[name_key(name)]@, name, w);
        assert(stands_at(bucket, name, w));
        assert(bucket[w].name@ != name);
    }
}

/// Collecting a name keeps the names filed correctly.
proof fn lemma_collected(
    names: Multiset<Seq<u8>>,
    before: Map<u64, Vec<Seen>>,
    old_bucket: Seq<Seen>,
    bucket: Vec<Seen>,
    name: Seq<u8>,
    at: int,
)
    requires
        all_filed(names, before),
        before.contains_key(name_key(name)) ==> old_bucket == before[name_key(name)]@,
        !before.contains_key(name_key(name)) ==> old_bucket.len() == 0,
        0 <= at <= old_bucket.len(),
        at < old_bucket.len() ==> old_bucket[at].name@ == name,
        forall|i: int| 0 <= i < at ==> (#[trigger] old_bucket[i]).name@ != name,
        collected(old_bucket, bucket@, name, at),
    ensures
        all_filed(names.insert(name), before.insert(name_key(name), bucket)),
{
    let key = name_key(name);
    let after = names.insert(name);
    let buckets = before.insert(key, bucket);
    lemma_position(names, before, old_bucket, name, at);
    if before.contains_key(key) {
        assert(filed(names, key, old_bucket));
    }
    assert forall|i: int| 0 <= i < bucket@.len() implies {
        &&& name_key((#[trigger] bucket@[i]).name@) == key
        &&& after.count(bucket@[i].name@) >= 1
        &&& bucket@[i].repeated == (after.count(bucket@[i].name@) >= 2)
    } by {
        if i != at {
            assert(bucket@[i] == old_bucket[i]);
            assert(old_bucket[i].name@ != name);
            assert(after.count(old_bucket[i].name@) == names.count(old_bucket[i].name@));
        } else {
            assert(after.count(name) == names.count(name) + 1);
        }
    }
    assert forall|i: int, j: int| 0 <= i < j < bucket@.len() implies (#[trigger] bucket@[i]).name@
        != (#[trigger] bucket@[j]).name@ by {
        if i != at && j != at {
            assert(bucket@[i] == old_bucket[i]);
            assert(bucket@[j] == old_bucket[j]);
            assert(old_bucket[i].name@ != old_bucket[j].name@);
        } else if i == at {
            assert(bucket@[j] == old_bucket[j]);
            assert(old_bucket[j].name@ != name);
        } else {
            assert(bucket@[i] == old_bucket[i]);
            assert(old_bucket[i].name@ != name);
        }
    }
    assert(filed(after, key, bucket@));
    assert forall|k: u64| #[trigger] buckets.contains_key(k) implies filed(
        after,
        k,
        buckets[k]@,
    ) by {
        if k != key {
            let other = before[k]@;
            assert(before.contains_key(k));
            assert(filed(names, k, other));
            assert forall|i: int| 0 <= i < other.len() implies {
                &&& name_key((#[trigger] other[i]).name@) == k
                &&& after.count(other[i].name@) >= 1
                &&& other[i].repeated == (after.count(other[i].name@) >= 2)
            } by {
                assert(name_key(other[i].name@) == k);
                assert(other[i].name@ != name);
                assert(after.count(other[i].name@) == names.count(other[i].name@));
            }
            assert(filed(after, k, other));
        }
    }
    assert forall|n: Seq<u8>| after.count(n) >= 1 implies {
        &&& buckets.contains_key(#[trigger] name_key(n))
        &&& exists|w: int| stands_at(buckets[name_key(n)]@, n, w)
    } by {
        if n == name {
            assert(buckets.contains_key(key));
            assert(buckets[key] == bucket);
            assert(stands_at(buckets[name_key(n)]@, n, at));
        } else {
            assert(after.count(n) == names.count(n));
            assert(before.contains_key(name_key(n)));
            assert(buckets.contains_key(name_key(n)));
            let w = choose|w: int| stands_at(before[name_key(n)]@, n, w);
            assert(stands_at(before[name_key(n)]@, n, w));
            if name_key(n) == key {
                assert(old_bucket == before[key]@);
                assert(w != at);
                assert(bucket@[w] == old_bucket[w]);
                assert(buckets[key] == bucket);
                assert(stands_at(buckets[name_key(n)]@, n, w));
            } else {
                assert(buckets[name_key(n)] == before[name_key(n)]);
                assert(stands_at(buckets[name_key(n)]@, n, w));
            }
        }
    }
}

/// The validator of code `S007`: no name occurs twice in a stream.
pub struct DuplicateNameValidator {
    buckets: HashMap<u64, Vec<Seen>>,
    names: Ghost<Multiset<Seq<u8>>>,
}

impl View for DuplicateNameValidator {
    type V = Multiset<Seq<u8>>;

    /// The names collected so far, each as often as it was collected.
    closed spec fn view(&self) -> Multiset<Seq<u8>> {
        self.names@
    }
}

impl DuplicateNameValidator {
    #[verifier::type_invariant]
    spec fn well_formed(&self) -> bool {
        all_filed(self.names@, self.buckets@)
    }

    pub open spec fn spec_code() -> Seq<char> {
        "S007"@
    }

    pub open spec fn spec_name() -> Seq<char> {
        "DuplicateNameValidator"@
    }

    /// What the validator finds in a record, given the names of the first
    /// pass: a violation when the record's name was collected more than once.
    pub open spec fn spec_validate(names: Multiset<Seq<u8>>, r: RecordView) -> Option<ErrorView> {
        if names.count(r.name) > 1 {
            Some(
                ErrorView {
                    code: Self::spec_code(),
                    name: Self::spec_name(),
                    message: "Duplicate found: '"@ + byte_text(r.name) + "'"@,
                    line_type: LineType::Name,
                    col_no: None,
                },
            )
        } else {
            None
        }
    }

    /// A validator that has collected no name yet.
    pub fn new() -> (v: Self)
        ensures
            v@ == Multiset::<Seq<u8>>::empty(),
    {
        DuplicateNameValidator { buckets: HashMap::new(), names: Ghost(Multiset::empty()) }
    }

    pub fn code(&self) -> (r: &'static str)
        ensures
            r@ == Self::spec_code(),
    {
        "S007"
    }

    pub fn name(&self) -> (r: &'static str)
        ensures
            r@ == Self::spec_name(),
    {
        "DuplicateNameValidator"
    }

    pub fn level(&self) -> (r: ValidationLevel)
        ensures
            r == ValidationLevel::High,
    {
        ValidationLevel::High
    }

    /// First pass: collects the name of a record.
    pub fn insert(&mut self, record: &Record)
        ensures
            final(self)@ == old(self)@.insert(record@.name),
    {
        let mut taken = DuplicateNameValidator::new();
        core::mem::swap(self, &mut taken);
        proof {
            use_type_invariant(&taken);
        }
        let DuplicateNameValidator { buckets, names } = taken;
        let mut buckets = buckets;
        let name = record.name();
        let key = key_of(name);
        let ghost before = buckets@;
        let ghost after = names@.insert(name@);
        let mut bucket = match buckets.remove(&key) {
            Some(bucket) => bucket,
            None => Vec::new(),
        };
        let ghost old_bucket = bucket@;
        proof {
            assert(before.contains_key(key) ==> old_bucket == before[key]@);
            assert(!before.contains_key(key) ==> old_bucket.len() == 0);
        }
        let at = position(&bucket, name);
        if at < bucket.len() {
            let seen = bucket.remove(at);
            bucket.insert(at, Seen { name: seen.name, repeated: true });
        } else {
            bucket.push(Seen { name: slice_to_vec(name), repeated: false });
        }
        proof {
            assert(collected(old_bucket, bucket@, name@, at as int));
            lemma_collected(names@, before, old_bucket, bucket, name@, at as int);
        }
        buckets.insert(key, bucket);
        proof {
            assert(buckets@ =~= before.insert(key, bucket));
        }
        *self = DuplicateNameValidator { buckets, names: Ghost(after) };
    }

    /// Second pass: judges a record against the names of the first.
    pub fn validate(&self, record: &Record) -> (r: Result<(), Error>)
        ensures
            reported(r) == Self::spec_validate(self@, record@),
    {
        proof {
            use_type_invariant(self);
        }
        let name = record.name();
        let key = key_of(name);
        let repeated = match self.buckets.get(&key) {
            Some(bucket) => {
                let at = position(bucket, name);
                proof {
                    if self.names@.count(name@) >= 1 {
                        let w = choose|w: int| stands_at(self.buckets@[key]@, name@, w);
                        assert(stands_at(bucket@, name@, w));
                    }
                }
                at < bucket.len() && bucket[at].repeated
            },
            None => false,
        };
        if repeated {
            let mut message = String::from_str("Duplicate found: '");
            push_bytes(&mut message, name);
            message.append("'");
            Err(Error::new(self.code(), self.name(), message.as_str(), LineType::Name, None))
        } else {
            Ok(())
        }
    }
}

/// Where `name` stands in the bucket; the bucket's length when it is not
/// in it.
fn position(bucket: &Vec<Seen>, name: &[u8]) -> (at: usize)
    ensures
        at <= bucket@.len(),
        at < bucket@.len() ==> bucket@[at as int].name@ == name@,
        forall|i: int| 0 <= i < at ==> (#[trigger] bucket@[i]).name@ != name@,
{
    let mut at: usize = 0;
    while at < bucket.len() && !bytes_equal(bucket[at].name.as_slice(), name)
        invariant
            at <= bucket@.len(),
            forall|i: int| 0 <= i < at ==> (#[trigger] bucket@[i]).name@ != name@,
        decreases bucket.len() - at,
    {
        at += 1;
    }
    at
}

} // verus!
