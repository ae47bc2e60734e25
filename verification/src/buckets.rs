//! Bucketed string sets: a flat set of hosts or suffixes sharded by a short
//! key that is a function of the member. Missing and empty buckets answer
//! membership identically, and the members of a bucket always carry the
//! bucket's own key.
use vstd::prelude::*;
use vstd::string::StrSliceExecFns;

use crate::text::str_eq;
use crate::text::ends_with_str;
use crate::text::suffix_of;

verus! {

/// One shard: the members whose derived key equals `key`.
#[derive(Debug)]
pub struct Bucket {
    pub key: String,
    pub members: Vec<String>,
}

/// `m` is held by some bucket.
pub open spec fn in_buckets(bs: Seq<Bucket>, m: Seq<char>) -> bool {
    exists|i: int, j: int|
        #![auto]
        0 <= i < bs.len() && 0 <= j < bs[i].members@.len() && bs[i].members@[j]@ == m
}

/// Everything the buckets hold, as one flat set.
pub open spec fn bucket_set(bs: Seq<Bucket>) -> Set<Seq<char>> {
    Set::new(|m: Seq<char>| in_buckets(bs, m))
}

/// No two members of one bucket are the same string.
pub open spec fn members_distinct(ms: Seq<String>) -> bool {
    forall|p: int, q: int| #![auto] 0 <= p < q < ms.len() ==> ms[p]@ != ms[q]@
}

/// Well-formed under the key function `keyf`: bucket keys are distinct, no
/// bucket holds a member twice, and each member sits in the bucket its key
/// points at.
pub open spec fn buckets_wf(bs: Seq<Bucket>, keyf: spec_fn(Seq<char>) -> Seq<char>) -> bool {
    &&& forall|i: int, j: int| #![auto] 0 <= i < j < bs.len() ==> bs[i].key@ != bs[j].key@
    &&& forall|i: int| #![auto] 0 <= i < bs.len() ==> members_distinct(bs[i].members@)
    &&& forall|i: int, j: int|
        #![auto]
        0 <= i < bs.len() && 0 <= j < bs[i].members@.len() ==> keyf(bs[i].members@[j]@)
            == bs[i].key@
}

fn find_bucket(bs: &Vec<Bucket>, key: &str) -> (r: Option<usize>)
    ensures
        match r {
            Some(i) => i < bs@.len() && bs@[i as int].key@ == key@,
            None => forall|i: int| #![auto] 0 <= i < bs@.len() ==> bs@[i].key@ != key@,
        },
{
    let mut i: usize = 0;
    while i < bs.len()
        invariant
            i <= bs@.len(),
            forall|k: int| #![auto] 0 <= k < i ==> bs@[k].key@ != key@,
        decreases bs@.len() - i,
    {
        if str_eq(bs[i].key.as_str(), key) {
            return Some(i);
        }
        i += 1;
    }
    None
}

fn find_member(ms: &Vec<String>, rec: &str) -> (r: Option<usize>)
    ensures
        match r {
            Some(j) => j < ms@.len() && ms@[j as int]@ == rec@,
            None => forall|j: int| #![auto] 0 <= j < ms@.len() ==> ms@[j]@ != rec@,
        },
{
    let mut j: usize = 0;
    while j < ms.len()
        invariant
            j <= ms@.len(),
            forall|k: int| #![auto] 0 <= k < j ==> ms@[k]@ != rec@,
        decreases ms@.len() - j,
    {
        if str_eq(ms[j].as_str(), rec) {
            return Some(j);
        }
        j += 1;
    }
    None
}

/// Under well-formedness, a member can only sit in the bucket its key points
/// at.
proof fn lemma_member_key(
    bs: Seq<Bucket>,
    keyf: spec_fn(Seq<char>) -> Seq<char>,
    m: Seq<char>,
    i: int,
    j: int,
)
    requires
        buckets_wf(bs, keyf),
        0 <= i < bs.len(),
        0 <= j < bs[i].members@.len(),
        bs[i].members@[j]@ == m,
    ensures
        bs[i].key@ == keyf(m),
{
}

/// Membership of `rec`, looked up through its bucket key alone.
pub fn bucket_contains(
    bs: &Vec<Bucket>,
    key: &str,
    rec: &str,
    keyf: Ghost<spec_fn(Seq<char>) -> Seq<char>>,
) -> (r: bool)
    requires
        buckets_wf(bs@, keyf@),
        keyf@(rec@) == key@,
    ensures
        r == bucket_set(bs@).contains(rec@),
{
    match find_bucket(bs, key) {
        Some(i) => {
            match find_member(&bs[i].members, rec) {
                Some(j) => {
                    proof {
                        assert(in_buckets(bs@, rec@));
                    }
                    true
                },
                None => {
                    proof {
                        if in_buckets(bs@, rec@) {
                            let (i0, j0) = choose|i0: int, j0: int|
                                #![auto]
                                0 <= i0 < bs@.len() && 0 <= j0 < bs@[i0].members@.len()
                                    && bs@[i0].members@[j0]@ == rec@;
                            lemma_member_key(bs@, keyf@, rec@, i0, j0);
                            assert(i0 == i);
                        }
                    }
                    false
                },
            }
        },
        None => {
            proof {
                if in_buckets(bs@, rec@) {
                    let (i0, j0) = choose|i0: int, j0: int|
                        #![auto]
                        0 <= i0 < bs@.len() && 0 <= j0 < bs@[i0].members@.len()
                            && bs@[i0].members@[j0]@ == rec@;
                    lemma_member_key(bs@, keyf@, rec@, i0, j0);
                }
            }
            false
        },
    }
}

/// Is some held string, filed under `key`, a suffix of `f`?
pub fn bucket_suffix_match(
    bs: &Vec<Bucket>,
    key: &str,
    f: &str,
    keyf: Ghost<spec_fn(Seq<char>) -> Seq<char>>,
) -> (r: bool)
    requires
        buckets_wf(bs@, keyf@),
    ensures
        r == exists|m: Seq<char>|
            #![auto]
            bucket_set(bs@).contains(m) && keyf@(m) == key@ && suffix_of(m, f@),
{
    match find_bucket(bs, key) {
        Some(i) => {
            let ms = &bs[i].members;
            let mut j: usize = 0;
            while j < ms.len()
                invariant
                    buckets_wf(bs@, keyf@),
                    j <= ms@.len(),
                    i < bs@.len(),
                    bs@[i as int].key@ == key@,
                    bs@[i as int].members == *ms,
                    forall|k: int| #![auto] 0 <= k < j ==> !suffix_of(ms@[k]@, f@),
                decreases ms@.len() - j,
            {
                if ends_with_str(f, ms[j].as_str()) {
                    proof {
                        assert(in_buckets(bs@, ms@[j as int]@));
                        lemma_member_key(bs@, keyf@, ms@[j as int]@, i as int, j as int);
                    }
                    return true;
                }
                j += 1;
            }
            proof {
                if exists|m: Seq<char>|
                    #![auto]
                    bucket_set(bs@).contains(m) && keyf@(m) == key@ && suffix_of(m, f@) {
                    let m = choose|m: Seq<char>|
                        #![auto]
                        bucket_set(bs@).contains(m) && keyf@(m) == key@ && suffix_of(m, f@);
                    let (i0, j0) = choose|i0: int, j0: int|
                        #![auto]
                        0 <= i0 < bs@.len() && 0 <= j0 < bs@[i0].members@.len()
                            && bs@[i0].members@[j0]@ == m;
                    lemma_member_key(bs@, keyf@, m, i0, j0);
                    assert(i0 == i);
                    assert(!suffix_of(ms@[j0]@, f@));
                }
            }
            false
        },
        None => {
            proof {
                if exists|m: Seq<char>|
                    #![auto]
                    bucket_set(bs@).contains(m) && keyf@(m) == key@ && suffix_of(m, f@) {
                    let m = choose|m: Seq<char>|
                        #![auto]
                        bucket_set(bs@).contains(m) && keyf@(m) == key@ && suffix_of(m, f@);
                    let (i0, j0) = choose|i0: int, j0: int|
                        #![auto]
                        0 <= i0 < bs@.len() && 0 <= j0 < bs@[i0].members@.len()
                            && bs@[i0].members@[j0]@ == m;
                    lemma_member_key(bs@, keyf@, m, i0, j0);
                }
            }
            false
        },
    }
}

/// Adds `rec` under `key`; inserting a member a second time changes nothing.
pub fn bucket_insert(
    bs: &mut Vec<Bucket>,
    key: String,
    rec: &String,
    keyf: Ghost<spec_fn(Seq<char>) -> Seq<char>>,
) -> (r: bool)
    requires
        buckets_wf(old(bs)@, keyf@),
        keyf@(rec@) == key@,
    ensures
        buckets_wf(final(bs)@, keyf@),
        bucket_set(final(bs)@) == bucket_set(old(bs)@).insert(rec@),
        r == !bucket_set(old(bs)@).contains(rec@),
{
    let ghost old_bs = bs@;
    match find_bucket(bs, key.as_str()) {
        Some(i) => {
            match find_member(&bs[i].members, rec.as_str()) {
                Some(_) => {
                    proof {
                        assert(in_buckets(bs@, rec@));
                        assert(bucket_set(bs@) =~= bucket_set(bs@).insert(rec@));
                    }
                    false
                },
                None => {
                    proof {
                        if in_buckets(bs@, rec@) {
                            let (i0, j0) = choose|i0: int, j0: int|
                                #![auto]
                                0 <= i0 < bs@.len() && 0 <= j0 < bs@[i0].members@.len()
                                    && bs@[i0].members@[j0]@ == rec@;
                            lemma_member_key(bs@, keyf@, rec@, i0, j0);
                            assert(i0 == i);
                        }
                    }
                    let b = &mut bs[i];
                    b.members.push(rec.clone());
                    proof {
                        let nbs = bs@;
                        assert(nbs[i as int].members@.last()@ == rec@);
                        assert forall|m: Seq<char>| #[trigger]
                            in_buckets(nbs, m) implies in_buckets(old_bs, m) || m == rec@ by {
                            let (i0, j0) = choose|i0: int, j0: int|
                                #![auto]
                                0 <= i0 < nbs.len() && 0 <= j0 < nbs[i0].members@.len()
                                    && nbs[i0].members@[j0]@ == m;
                            if i0 == i as int && j0 == nbs[i0].members@.len() - 1 {
                            } else {
                                assert(old_bs[i0].members@[j0]@ == m);
                            }
                        }
                        assert forall|m: Seq<char>|
                            in_buckets(old_bs, m) || m == rec@ implies #[trigger] in_buckets(
                            nbs,
                            m,
                        ) by {
                            if m == rec@ {
                                assert(nbs[i as int].members@[nbs[i as int].members@.len() - 1]@
                                    == m);
                            } else {
                                let (i0, j0) = choose|i0: int, j0: int|
                                    #![auto]
                                    0 <= i0 < old_bs.len() && 0 <= j0 < old_bs[i0].members@.len()
                                        && old_bs[i0].members@[j0]@ == m;
                                assert(nbs[i0].members@[j0]@ == m);
                            }
                        }
                        assert(bucket_set(nbs) =~= bucket_set(old_bs).insert(rec@));
                    }
                    true
                },
            }
        },
        None => {
            proof {
                if in_buckets(bs@, rec@) {
                    let (i0, j0) = choose|i0: int, j0: int|
                        #![auto]
                        0 <= i0 < bs@.len() && 0 <= j0 < bs@[i0].members@.len()
                            && bs@[i0].members@[j0]@ == rec@;
                    lemma_member_key(bs@, keyf@, rec@, i0, j0);
                }
            }
            let mut members: Vec<String> = Vec::new();
            members.push(rec.clone());
            bs.push(Bucket { key, members });
            proof {
                let nbs = bs@;
                assert(nbs[nbs.len() - 1].members@[0]@ == rec@);
                assert forall|m: Seq<char>| #[trigger]
                    in_buckets(nbs, m) implies in_buckets(old_bs, m) || m == rec@ by {
                    let (i0, j0) = choose|i0: int, j0: int|
                        #![auto]
                        0 <= i0 < nbs.len() && 0 <= j0 < nbs[i0].members@.len()
                            && nbs[i0].members@[j0]@ == m;
                    if i0 < nbs.len() - 1 {
                        assert(old_bs[i0].members@[j0]@ == m);
                    }
                }
                assert forall|m: Seq<char>|
                    in_buckets(old_bs, m) || m == rec@ implies #[trigger] in_buckets(nbs, m) by {
                    if m == rec@ {
                        assert(nbs[nbs.len() - 1].members@[0]@ == m);
                    } else {
                        let (i0, j0) = choose|i0: int, j0: int|
                            #![auto]
                            0 <= i0 < old_bs.len() && 0 <= j0 < old_bs[i0].members@.len()
                                && old_bs[i0].members@[j0]@ == m;
                        assert(nbs[i0].members@[j0]@ == m);
                    }
                }
                assert(bucket_set(nbs) =~= bucket_set(old_bs).insert(rec@));
            }
            true
        },
    }
}

/// Removes `rec` from the bucket its key points at; the emptied bucket
/// stays. Removing an absent member changes nothing.
pub fn bucket_remove(
    bs: &mut Vec<Bucket>,
    key: String,
    rec: &String,
    keyf: Ghost<spec_fn(Seq<char>) -> Seq<char>>,
) -> (r: bool)
    requires
        buckets_wf(old(bs)@, keyf@),
        keyf@(rec@) == key@,
    ensures
        buckets_wf(final(bs)@, keyf@),
        bucket_set(final(bs)@) == bucket_set(old(bs)@).remove(rec@),
        r == bucket_set(old(bs)@).contains(rec@),
{
    let ghost old_bs = bs@;
    match find_bucket(bs, key.as_str()) {
        Some(i) => {
            match find_member(&bs[i].members, rec.as_str()) {
                Some(j) => {
                    proof {
                        assert(in_buckets(bs@, rec@));
                    }
                    let b = &mut bs[i];
                    b.members.remove(j);
                    proof {
                        let nbs = bs@;
                        let oms = old_bs[i as int].members@;
                        let nms = nbs[i as int].members@;
                        assert(nms =~= oms.subrange(0, j as int) + oms.subrange(
                            j + 1,
                            oms.len() as int,
                        ));
                        assert forall|q: int| 0 <= q < nms.len() implies (nms[q] == oms[q] || nms[q]
                            == oms[q + 1]) by {}
                        assert forall|m: Seq<char>| #[trigger]
                            in_buckets(nbs, m) implies in_buckets(old_bs, m) && m != rec@ by {
                            let (i0, j0) = choose|i0: int, j0: int|
                                #![auto]
                                0 <= i0 < nbs.len() && 0 <= j0 < nbs[i0].members@.len()
                                    && nbs[i0].members@[j0]@ == m;
                            if i0 == i as int {
                                if j0 < j as int {
                                    assert(old_bs[i0].members@[j0]@ == m);
                                    assert(m != rec@);
                                } else {
                                    assert(old_bs[i0].members@[j0 + 1]@ == m);
                                    assert(m != rec@);
                                }
                            } else {
                                assert(old_bs[i0].members@[j0]@ == m);
                                if m == rec@ {
                                    lemma_member_key(old_bs, keyf@, m, i0, j0);
                                    assert(false);
                                }
                            }
                        }
                        assert forall|m: Seq<char>|
                            in_buckets(old_bs, m) && m != rec@ implies #[trigger] in_buckets(
                            nbs,
                            m,
                        ) by {
                            let (i0, j0) = choose|i0: int, j0: int|
                                #![auto]
                                0 <= i0 < old_bs.len() && 0 <= j0 < old_bs[i0].members@.len()
                                    && old_bs[i0].members@[j0]@ == m;
                            if i0 == i as int {
                                assert(oms[j as int]@ == rec@);
                                assert(j0 != j);
                                if j0 < j as int {
                                    assert(nms[j0]@ == m);
                                } else {
                                    assert(nms[j0 - 1]@ == m);
                                }
                            } else {
                                assert(nbs[i0].members@[j0]@ == m);
                            }
                        }
                        assert(bucket_set(nbs) =~= bucket_set(old_bs).remove(rec@));
                    }
                    true
                },
                None => {
                    proof {
                        if in_buckets(bs@, rec@) {
                            let (i0, j0) = choose|i0: int, j0: int|
                                #![auto]
                                0 <= i0 < bs@.len() && 0 <= j0 < bs@[i0].members@.len()
                                    && bs@[i0].members@[j0]@ == rec@;
                            lemma_member_key(bs@, keyf@, rec@, i0, j0);
                            assert(i0 == i);
                        }
                        assert(bucket_set(bs@) =~= bucket_set(bs@).remove(rec@));
                    }
                    false
                },
            }
        },
        None => {
            proof {
                if in_buckets(bs@, rec@) {
                    let (i0, j0) = choose|i0: int, j0: int|
                        #![auto]
                        0 <= i0 < bs@.len() && 0 <= j0 < bs@[i0].members@.len()
                            && bs@[i0].members@[j0]@ == rec@;
                    lemma_member_key(bs@, keyf@, rec@, i0, j0);
                }
                assert(bucket_set(bs@) =~= bucket_set(bs@).remove(rec@));
            }
            false
        },
    }
}

/// The members filed under `key`, when such a bucket exists: exactly the
/// held strings whose derived key is `key`, each once.
pub fn bucket_members<'a>(
    bs: &'a Vec<Bucket>,
    key: &str,
    keyf: Ghost<spec_fn(Seq<char>) -> Seq<char>>,
) -> (r: Option<&'a Vec<String>>)
    requires
        buckets_wf(bs@, keyf@),
    ensures
        match r {
            Some(ms) => {
                &&& members_distinct(ms@)
                &&& forall|j: int|
                    #![auto]
                    0 <= j < ms@.len() ==> bucket_set(bs@).contains(ms@[j]@) && keyf@(ms@[j]@)
                        == key@
                &&& forall|m: Seq<char>|
                    bucket_set(bs@).contains(m) && keyf@(m) == key@ ==> exists|j: int|
                        #![auto]
                        0 <= j < ms@.len() && ms@[j]@ == m
            },
            None => forall|m: Seq<char>| #[trigger]
                bucket_set(bs@).contains(m) ==> keyf@(m) != key@,
        },
{
    match find_bucket(bs, key) {
        Some(i) => {
            let ms = &bs[i].members;
            proof {
                assert forall|j: int|
                    0 <= j < ms@.len() implies bucket_set(bs@).contains(ms@[j]@) && keyf@(ms@[j]@)
                    == key@ by {
                    assert(in_buckets(bs@, ms@[j]@));
                    lemma_member_key(bs@, keyf@, ms@[j]@, i as int, j);
                }
                assert forall|m: Seq<char>|
                    bucket_set(bs@).contains(m) && keyf@(m) == key@ implies exists|j: int|
                    #![auto]
                    0 <= j < ms@.len() && ms@[j]@ == m by {
                    let (i0, j0) = choose|i0: int, j0: int|
                        #![auto]
                        0 <= i0 < bs@.len() && 0 <= j0 < bs@[i0].members@.len()
                            && bs@[i0].members@[j0]@ == m;
                    lemma_member_key(bs@, keyf@, m, i0, j0);
                    assert(i0 == i);
                    assert(0 <= j0 < ms@.len() && ms@[j0]@ == m);
                }
            }
            Some(ms)
        },
        None => {
            proof {
                assert forall|m: Seq<char>| #[trigger]
                    bucket_set(bs@).contains(m) implies keyf@(m) != key@ by {
                    let (i0, j0) = choose|i0: int, j0: int|
                        #![auto]
                        0 <= i0 < bs@.len() && 0 <= j0 < bs@[i0].members@.len()
                            && bs@[i0].members@[j0]@ == m;
                    lemma_member_key(bs@, keyf@, m, i0, j0);
                }
            }
            None
        },
    }
}

/// The keys of all buckets, in index order.
pub fn bucket_keys(bs: &Vec<Bucket>) -> (r: Vec<String>)
    ensures
        r@.len() == bs@.len(),
        forall|i: int| #![auto] 0 <= i < bs@.len() ==> r@[i]@ == bs@[i].key@,
{
    let mut r: Vec<String> = Vec::new();
    let mut i: usize = 0;
    while i < bs.len()
        invariant
            i <= bs@.len(),
            r@.len() == i,
            forall|k: int| #![auto] 0 <= k < i ==> r@[k]@ == bs@[k].key@,
        decreases bs@.len() - i,
    {
        r.push(bs[i].key.clone());
        i += 1;
    }
    r
}

} // verus!
