//! Bale assignment: a seeded shuffle for draw fairness, a stable sort that
//! groups records by target face and class, and a packing fold that hands
//! out positions of four lanes per bale. A change of group forces the next
//! record onto lane A of a fresh bale; inside a group positions simply
//! advance, so a group whose size is no multiple of four shares its last
//! bale with the next group.

use crate::class::Class;
use crate::record::BaleSlot;
use crate::record::Lane;
use crate::record::ParticipantRecord;
use crate::target_face::TargetFace;
use rand::SeedableRng;
use rand::seq::SliceRandom;
use vstd::multiset::Multiset;
use vstd::prelude::*;
use vstd::seq_lib::lemma_multiset_commutative;

verus! {

broadcast use vstd::seq_lib::group_to_multiset_ensures;

/// A record can be keyed for grouping: class and target face are present.
pub open spec fn has_key(r: ParticipantRecord) -> bool {
    r.cls is Some && r.target_face is Some
}

pub open spec fn all_keyed(s: Seq<ParticipantRecord>) -> bool {
    forall|i: int| 0 <= i < s.len() ==> has_key(#[trigger] s[i])
}

pub open spec fn spec_tf_rank(f: TargetFace) -> int {
    match f {
        TargetFace::M60cm122 => 0,
        TargetFace::M50cm80 => 1,
        TargetFace::M40cm122 => 2,
        TargetFace::M20cm122 => 3,
    }
}

pub open spec fn spec_cls_rank(c: Class) -> int {
    match c {
        Class::RSU => 0,
        Class::RST => 1,
        Class::CC => 2,
        Class::RP => 3,
    }
}

/// The grouping key: target face first, class second. Records share a bale
/// group exactly when their keys are equal.
pub open spec fn spec_key(r: ParticipantRecord) -> (int, int) {
    (spec_tf_rank(r.target_face->0), spec_cls_rank(r.cls->0))
}

pub open spec fn key_seq(s: Seq<ParticipantRecord>) -> Seq<(int, int)> {
    s.map_values(|r: ParticipantRecord| spec_key(r))
}

/// Ascending order on keys, ties allowed.
pub open spec fn key_le(a: ParticipantRecord, b: ParticipantRecord) -> bool {
    spec_key(a).0 < spec_key(b).0 || (spec_key(a).0 == spec_key(b).0 && spec_key(a).1 <= spec_key(
        b,
    ).1)
}

pub open spec fn key_sorted(s: Seq<ParticipantRecord>) -> bool {
    forall|i: int, j: int| 0 <= i < j < s.len() ==> key_le(#[trigger] s[i], #[trigger] s[j])
}

fn exec_tf_rank(f: TargetFace) -> (r: u8)
    ensures
        r as int == spec_tf_rank(f),
{
    match f {
        TargetFace::M60cm122 => 0,
        TargetFace::M50cm80 => 1,
        TargetFace::M40cm122 => 2,
        TargetFace::M20cm122 => 3,
    }
}

fn exec_cls_rank(c: Class) -> (r: u8)
    ensures
        r as int == spec_cls_rank(c),
{
    match c {
        Class::RSU => 0,
        Class::RST => 1,
        Class::CC => 2,
        Class::RP => 3,
    }
}

fn exec_key(r: &ParticipantRecord) -> (k: (u8, u8))
    requires
        has_key(*r),
    ensures
        (k.0 as int, k.1 as int) == spec_key(*r),
{
    let tf = match r.target_face {
        Some(f) => f,
        None => TargetFace::M60cm122,
    };
    let c = match r.cls {
        Some(c) => c,
        None => Class::RSU,
    };
    (exec_tf_rank(tf), exec_cls_rank(c))
}

fn exec_key_le(a: &ParticipantRecord, b: &ParticipantRecord) -> (r: bool)
    requires
        has_key(*a),
        has_key(*b),
    ensures
        r == key_le(*a, *b),
{
    let ka = exec_key(a);
    let kb = exec_key(b);
    ka.0 < kb.0 || (ka.0 == kb.0 && ka.1 <= kb.1)
}

/// Why a record cannot be assigned: the field it lacks and where it stands.
#[derive(Clone, Copy, Debug, PartialEq, Eq, Structural)]
pub enum AssignError {
    /// The record at this position has no competition class.
    MissingClass(usize),
    /// The record at this position has no target face.
    MissingTargetFace(usize),
}

/// Position of the first record that cannot be keyed.
pub open spec fn first_unkeyed(s: Seq<ParticipantRecord>) -> int
    decreases s.len(),
{
    if s.len() == 0 {
        0
    } else if !has_key(s[0]) {
        0
    } else {
        1 + first_unkeyed(s.drop_first())
    }
}

/// The error assignment reports: the first record that cannot be keyed,
/// blamed on its class when that is missing, else on its target face.
pub open spec fn spec_missing_error(s: Seq<ParticipantRecord>) -> AssignError {
    let i = first_unkeyed(s);
    if s[i].cls is None {
        AssignError::MissingClass(i as usize)
    } else {
        AssignError::MissingTargetFace(i as usize)
    }
}

proof fn lemma_first_unkeyed(s: Seq<ParticipantRecord>, i: int)
    requires
        0 <= i < s.len(),
        !has_key(s[i]),
        forall|k: int| 0 <= k < i ==> has_key(#[trigger] s[k]),
    ensures
        first_unkeyed(s) == i,
    decreases i,
{
    if i > 0 {
        lemma_first_unkeyed(s.drop_first(), i - 1);
    }
}

fn check_keyed(records: &Vec<ParticipantRecord>) -> (r: Option<AssignError>)
    ensures
        match r {
            None => all_keyed(records@),
            Some(e) => !all_keyed(records@) && e == spec_missing_error(records@),
        },
{
    let mut i: usize = 0;
    while i < records.len()
        invariant
            i <= records@.len(),
            forall|k: int| 0 <= k < i ==> has_key(#[trigger] records@[k]),
        decreases records@.len() - i,
    {
        let r = &records[i];
        if r.cls.is_none() {
            proof {
                lemma_first_unkeyed(records@, i as int);
            }
            return Some(AssignError::MissingClass(i));
        }
        if r.target_face.is_none() {
            proof {
                lemma_first_unkeyed(records@, i as int);
            }
            return Some(AssignError::MissingTargetFace(i));
        }
        i = i + 1;
    }
    None
}

/// What rand's seeded shuffle returns for the given sequence and seed.
pub uninterp spec fn shuffled(s: Seq<ParticipantRecord>, seed: u64) -> Seq<ParticipantRecord>;

/// Relies on rand's SliceRandom::shuffle run on a StdRng built with
/// SeedableRng::seed_from_u64: a Fisher-Yates pass whose swaps are computed
/// from the slice length and the seeded generator alone, so the outcome is a
/// permutation of the input determined by the input and the seed.
#[verifier::external_body]
fn shuffle_records(v: &mut Vec<ParticipantRecord>, seed: u64)
    ensures
        final(v)@ == shuffled(old(v)@, seed),
        final(v)@.to_multiset() == old(v)@.to_multiset(),
{
    let mut rng = rand::rngs::StdRng::seed_from_u64(seed);
    v.shuffle(&mut rng);
}

/// Stable insertion of a record into a key-sorted sequence: the record goes
/// after every element whose key is less than or equal to its own.
pub open spec fn insert_sorted(s: Seq<ParticipantRecord>, x: ParticipantRecord) -> Seq<
    ParticipantRecord,
>
    decreases s.len(),
{
    if s.len() == 0 {
        seq![x]
    } else if key_le(s.last(), x) {
        s.push(x)
    } else {
        insert_sorted(s.drop_last(), x).push(s.last())
    }
}

/// Stable sort by key: records are inserted left to right, so records with
/// equal keys keep their relative order.
pub open spec fn sort_spec(s: Seq<ParticipantRecord>) -> Seq<ParticipantRecord>
    decreases s.len(),
{
    if s.len() == 0 {
        s
    } else {
        insert_sorted(sort_spec(s.drop_last()), s.last())
    }
}

/// Where stable insertion puts the new record: splitting a sorted sequence
/// at the first position from which every key exceeds the new record's key.
proof fn lemma_insert_sorted_split(s: Seq<ParticipantRecord>, x: ParticipantRecord, j: int)
    requires
        key_sorted(s),
        0 <= j <= s.len(),
        forall|k: int| j <= k < s.len() ==> !key_le(#[trigger] s[k], x),
        j > 0 ==> key_le(s[j - 1], x),
    ensures
        insert_sorted(s, x) == s.take(j) + seq![x] + s.skip(j),
        key_sorted(insert_sorted(s, x)),
    decreases s.len(),
{
    if s.len() == 0 {
        assert(insert_sorted(s, x) =~= s.take(j) + seq![x] + s.skip(j));
    } else if key_le(s.last(), x) {
        assert(j == s.len());
        assert(insert_sorted(s, x) =~= s.take(j) + seq![x] + s.skip(j));
    } else {
        let s0 = s.drop_last();
        assert(key_sorted(s0)) by {
            assert(forall|i: int, k: int|
                0 <= i < k < s0.len() ==> key_le(#[trigger] s0[i], #[trigger] s0[k]) == key_le(
                    s[i],
                    s[k],
                ));
        }
        lemma_insert_sorted_split(s0, x, j);
        assert(insert_sorted(s, x) =~= s.take(j) + seq![x] + s.skip(j));
    }
    lemma_split_insert_sorted(s, x, j);
}

/// Splicing a record in at the boundary keeps the sequence sorted.
proof fn lemma_split_insert_sorted(s: Seq<ParticipantRecord>, x: ParticipantRecord, j: int)
    requires
        key_sorted(s),
        0 <= j <= s.len(),
        forall|k: int| j <= k < s.len() ==> !key_le(#[trigger] s[k], x),
        j > 0 ==> key_le(s[j - 1], x),
    ensures
        key_sorted(s.take(j) + seq![x] + s.skip(j)),
{
    let t = s.take(j) + seq![x] + s.skip(j);
    assert forall|a: int, b: int| 0 <= a < b < t.len() implies key_le(t[a], t[b]) by {
        if a < j && b == j {
            assert(t[a] == s[a] && t[b] == x);
            assert(key_le(s[j - 1], x));
            assert(a <= j - 1);
            if a < j - 1 {
                assert(key_le(s[a], s[j - 1]));
            }
        } else if a == j && b > j {
            assert(t[a] == x && t[b] == s[b - 1]);
            assert(!key_le(s[b - 1], x));
        } else if a < j && b > j {
            assert(t[a] == s[a] && t[b] == s[b - 1]);
            assert(!key_le(s[b - 1], x));
            if a <= j - 1 && j <= b - 1 {
                if a < b - 1 {
                    assert(key_le(s[a], s[b - 1]));
                } else {
                    assert(key_le(s[a], x));
                }
            }
        } else if a < j && b < j {
            assert(t[a] == s[a] && t[b] == s[b]);
        } else if a > j && b > j {
            assert(t[a] == s[a - 1] && t[b] == s[b - 1]);
        }
    }
}

/// Inserting an element anywhere adds exactly it to the multiset.
proof fn lemma_seq_insert_multiset(s: Seq<ParticipantRecord>, j: int, x: ParticipantRecord)
    requires
        0 <= j <= s.len(),
    ensures
        s.insert(j, x).to_multiset() == s.to_multiset().insert(x),
{
    let t = s.insert(j, x);
    assert(t =~= s.take(j) + (seq![x] + s.skip(j)));
    lemma_multiset_commutative(s.take(j), seq![x] + s.skip(j));
    lemma_multiset_commutative(seq![x], s.skip(j));
    assert(s =~= s.take(j) + s.skip(j));
    lemma_multiset_commutative(s.take(j), s.skip(j));
    assert(seq![x].to_multiset() =~= Multiset::empty().insert(x)) by {
        assert(seq![x].drop_first() =~= Seq::<ParticipantRecord>::empty());
    }
    assert(t.to_multiset() =~= s.to_multiset().insert(x));
}

/// A one-record sequence is already sorted.
proof fn lemma_sort_spec_single(s: Seq<ParticipantRecord>)
    requires
        s.len() == 1,
    ensures
        sort_spec(s) == s,
{
    let e = s.drop_last();
    assert(e =~= Seq::<ParticipantRecord>::empty());
    assert(sort_spec(e) == e);
    assert(insert_sorted(e, s.last()) =~= seq![s.last()]);
    assert(sort_spec(s) == insert_sorted(sort_spec(e), s.last()));
    assert(seq![s.last()] =~= s);
}

/// Sorts the records by key, stably, in place.
fn sort_records(v: &mut Vec<ParticipantRecord>)
    requires
        all_keyed(old(v)@),
    ensures
        final(v)@ == sort_spec(old(v)@),
        key_sorted(final(v)@),
        final(v)@.to_multiset() == old(v)@.to_multiset(),
        final(v)@.len() == old(v)@.len(),
        all_keyed(final(v)@),
    decreases old(v)@.len(),
{
    if v.len() <= 1 {
        proof {
            if old(v)@.len() == 1 {
                lemma_sort_spec_single(old(v)@);
            }
        }
        return ;
    }
    let ghost orig = v@;
    let mut i: usize = 1;
    proof {
        lemma_sort_spec_single(orig.take(1int));
        assert(v@.take(1int) =~= orig.take(1int));
        assert(v@.skip(1int) =~= orig.skip(1int));
    }
    while i < v.len()
        invariant
            1 <= i <= v@.len(),
            v@.len() == orig.len(),
            all_keyed(v@),
            v@.to_multiset() == orig.to_multiset(),
            v@.take(i as int) == sort_spec(orig.take(i as int)),
            key_sorted(v@.take(i as int)),
            v@.skip(i as int) == orig.skip(i as int),
        decreases v@.len() - i,
    {
        let ghost v_pre = v@;
        let x = v.remove(i);
        proof {
            assert(x == orig[i as int]) by {
                assert(v_pre.skip(i as int)[0] == v_pre[i as int]);
                assert(orig.skip(i as int)[0] == orig[i as int]);
            }
            assert(v@ =~= v_pre.take(i as int) + v_pre.skip(i as int + 1));
            assert(forall|k: int| 0 <= k < i ==> v@[k] == v_pre[k]);
            assert(all_keyed(v@)) by {
                assert(forall|k: int|
                    0 <= k < v@.len() ==> v@[k] == v_pre[k] || v@[k] == v_pre[k + 1]);
            }
            assert(has_key(x));
        }
        let mut j: usize = i;
        while j > 0 && !exec_key_le(&v[j - 1], &x)
            invariant
                j <= i,
                i < v_pre.len(),
                v@.len() == v_pre.len() - 1,
                i <= v@.len(),
                all_keyed(v@),
                has_key(x),
                forall|k: int| j <= k < i ==> !key_le(#[trigger] v@[k], x),
            decreases j,
        {
            j = j - 1;
        }
        let ghost v_mid = v@;
        v.insert(j, x);
        proof {
            let gi = i as int;
            let gj = j as int;
            let prefix = v_mid.take(gi);
            assert(key_sorted(prefix)) by {
                assert(forall|k: int| 0 <= k < gi ==> prefix[k] == v_pre.take(gi)[k]);
                assert(prefix =~= v_pre.take(gi));
            }
            lemma_insert_sorted_split(prefix, x, gj);
            assert(v@ == v_mid.insert(gj, x));
            assert(v@.take(gi + 1) =~= prefix.take(gj) + seq![x] + prefix.skip(gj));
            assert(v@.take(gi + 1) == insert_sorted(prefix, x));
            assert(prefix == sort_spec(orig.take(gi)));
            assert(orig.take(gi + 1).drop_last() =~= orig.take(gi));
            assert(orig.take(gi + 1).last() == orig[gi]);
            assert(sort_spec(orig.take(gi + 1)) == insert_sorted(sort_spec(orig.take(gi)), x));
            assert(v@.take(gi + 1) == sort_spec(orig.take(gi + 1)));
            assert(key_sorted(v@.take(gi + 1)));
            assert(v@.skip(gi + 1) =~= orig.skip(gi + 1)) by {
                assert(forall|k: int|
                    gi + 1 <= k < v@.len() ==> v@[k] == v_mid[k - 1] && v_mid[k - 1] == v_pre[k]);
                assert(forall|k: int|
                    gi + 1 <= k < v@.len() ==> v_pre.skip(gi)[k - gi] == v_pre[k] && orig.skip(
                        gi,
                    )[k - gi] == orig[k]);
            }
            assert(all_keyed(v@)) by {
                assert(forall|k: int|
                    0 <= k < v@.len() ==> v@[k] == x || v@[k] == v_mid[k] || v@[k] == v_mid[k - 1]);
            }
            assert(v@.to_multiset() == orig.to_multiset()) by {
                assert(v_mid == v_pre.remove(gi));
                assert(v_pre.remove(gi).to_multiset() == v_pre.to_multiset().remove(x));
                lemma_seq_insert_multiset(v_mid, gj, x);
                assert(v_pre.to_multiset().count(x) > 0) by {
                    assert(v_pre.contains(x)) by {
                        assert(v_pre[gi] == x);
                    }
                }
                assert(v@.to_multiset() =~= v_pre.to_multiset());
            }
        }
        i = i + 1;
    }
    proof {
        assert(v@.take(i as int) =~= v@);
        assert(orig.take(i as int) =~= orig);
    }
}

/// The lane of a position: its residue inside a bale of four.
pub open spec fn spec_lane_of(m: int) -> Lane {
    if m == 0 {
        Lane::A
    } else if m == 1 {
        Lane::B
    } else if m == 2 {
        Lane::C
    } else {
        Lane::D
    }
}

/// The slot a position denotes: bale number and lane letter.
pub open spec fn spec_slot_of(p: int) -> BaleSlot {
    BaleSlot { number: (p / 4) as u64, lane: spec_lane_of(p % 4) }
}

/// The position of the record at `i` under the packing rule: the first
/// record, and the first of each new key group, advances to the next
/// multiple of four; inside a group positions advance by one.
pub open spec fn pos_at(keys: Seq<(int, int)>, i: int) -> int
    decreases i,
{
    if i <= 0 {
        4
    } else if keys[i] == keys[i - 1] {
        pos_at(keys, i - 1) + 1
    } else {
        (pos_at(keys, i - 1) / 4 + 1) * 4
    }
}

/// Positions stay within four steps per record.
proof fn lemma_pos_at_bounds(keys: Seq<(int, int)>, i: int)
    requires
        0 <= i,
    ensures
        4 <= pos_at(keys, i) <= 4 + 4 * i,
    decreases i,
{
    if i > 0 {
        lemma_pos_at_bounds(keys, i - 1);
    }
}

/// The record a slot is written into: the same record, bale filled in.
pub open spec fn with_slot(r: ParticipantRecord, s: BaleSlot) -> ParticipantRecord {
    ParticipantRecord {
        bib: r.bib,
        first_name: r.first_name,
        last_name: r.last_name,
        date_of_birth: r.date_of_birth,
        bow_type: r.bow_type,
        cls: r.cls,
        session: r.session,
        target_face: r.target_face,
        bale: Some(s),
    }
}

/// The same record with no bale, for comparisons that ignore assignment.
pub open spec fn strip_bale(r: ParticipantRecord) -> ParticipantRecord {
    ParticipantRecord {
        bib: r.bib,
        first_name: r.first_name,
        last_name: r.last_name,
        date_of_birth: r.date_of_birth,
        bow_type: r.bow_type,
        cls: r.cls,
        session: r.session,
        target_face: r.target_face,
        bale: None,
    }
}

/// Every record of the (sorted) sequence with its packed slot written in.
pub open spec fn positions_applied(s: Seq<ParticipantRecord>) -> Seq<ParticipantRecord> {
    Seq::new(s.len(), |i: int| with_slot(s[i], spec_slot_of(pos_at(key_seq(s), i))))
}

/// The whole assignment: shuffle with the seed, sort stably by key, pack.
pub open spec fn assign_spec(s: Seq<ParticipantRecord>, seed: u64) -> Seq<ParticipantRecord> {
    positions_applied(sort_spec(shuffled(s, seed)))
}

fn clone_with_slot(r: &ParticipantRecord, s: BaleSlot) -> (out: ParticipantRecord)
    ensures
        out == with_slot(*r, s),
{
    ParticipantRecord {
        bib: r.bib,
        first_name: r.first_name.clone(),
        last_name: r.last_name.clone(),
        date_of_birth: r.date_of_birth,
        bow_type: r.bow_type,
        cls: r.cls,
        session: r.session,
        target_face: r.target_face,
        bale: Some(s),
    }
}

/// Walks the sorted records and writes each one's slot.
fn apply_positions(v: &Vec<ParticipantRecord>) -> (out: Vec<ParticipantRecord>)
    requires
        all_keyed(v@),
        v@.len() < 0x1000_0000_0000_0000,
    ensures
        out@ == positions_applied(v@),
{
    let ghost keys = key_seq(v@);
    let mut out: Vec<ParticipantRecord> = Vec::new();
    let mut pos: u64 = 3;
    let mut prev: Option<(u8, u8)> = None;
    let mut i: usize = 0;
    while i < v.len()
        invariant
            i <= v@.len(),
            v@.len() < 0x1000_0000_0000_0000,
            all_keyed(v@),
            keys == key_seq(v@),
            out@ =~= positions_applied(v@).take(i as int),
            i == 0 ==> pos == 3 && prev is None,
            i > 0 ==> pos as int == pos_at(keys, i as int - 1) && (prev matches Some(p) && (
            p.0 as int,
            p.1 as int,
            ) == keys[i as int - 1]),
            pos as int <= 4 + 4 * (i as int),
        decreases v@.len() - i,
    {
        let k = exec_key(&v[i]);
        let same = match prev {
            Some(p) => p.0 == k.0 && p.1 == k.1,
            None => false,
        };
        proof {
            assert(keys[i as int] == spec_key(v@[i as int]));
            if i > 0 {
                lemma_pos_at_bounds(keys, i as int - 1);
            }
        }
        let new_pos: u64 = if same {
            pos + 1
        } else {
            (pos / 4 + 1) * 4
        };
        proof {
            if i > 0 {
                assert(same == (keys[i as int] == keys[i as int - 1]));
            }
            assert(new_pos as int == pos_at(keys, i as int));
            lemma_pos_at_bounds(keys, i as int);
        }
        let lane = match new_pos % 4 {
            0 => Lane::A,
            1 => Lane::B,
            2 => Lane::C,
            _ => Lane::D,
        };
        let slot = BaleSlot { number: new_pos / 4, lane };
        proof {
            assert(slot == spec_slot_of(pos_at(keys, i as int)));
        }
        let rec = clone_with_slot(&v[i], slot);
        out.push(rec);
        pos = new_pos;
        prev = Some(k);
        i = i + 1;
    }
    proof {
        assert(out@ =~= positions_applied(v@));
    }
    out
}

/// Equal multisets stay equal multisets under mapping.
proof fn lemma_map_values_multiset(
    a: Seq<ParticipantRecord>,
    b: Seq<ParticipantRecord>,
    f: spec_fn(ParticipantRecord) -> ParticipantRecord,
)
    requires
        a.to_multiset() == b.to_multiset(),
    ensures
        a.map_values(f).to_multiset() == b.map_values(f).to_multiset(),
    decreases a.len(),
{
    if a.len() == 0 {
        assert(a.to_multiset().len() == a.len());
        assert(b.to_multiset().len() == b.len());
        assert(b.len() == 0);
        assert(a.map_values(f) =~= b.map_values(f));
    } else {
        let x = a.last();
        let a0 = a.drop_last();
        assert(a =~= a0.push(x));
        assert(a.to_multiset() == a0.to_multiset().insert(x));
        assert(b.to_multiset().count(x) > 0) by {
            assert(a.to_multiset().count(x) > 0);
        }
        assert(b.contains(x));
        let j = choose|j: int| 0 <= j < b.len() && b[j] == x;
        let b0 = b.remove(j);
        assert(b0.to_multiset() == b.to_multiset().remove(x));
        assert(a0.to_multiset() =~= b0.to_multiset()) by {
            assert(a0.to_multiset() == a.to_multiset().remove(x)) by {
                assert(a0.push(x).to_multiset() == a0.to_multiset().insert(x));
                assert(a.to_multiset().remove(x) =~= a0.to_multiset());
            }
        }
        lemma_map_values_multiset(a0, b0, f);
        assert(a.map_values(f) =~= a0.map_values(f).push(f(x)));
        assert(a.map_values(f).to_multiset() == a0.map_values(f).to_multiset().insert(f(x)));
        assert(b0.map_values(f) =~= b.map_values(f).remove(j));
        assert(b.map_values(f).remove(j).to_multiset() == b.map_values(f).to_multiset().remove(
            f(x),
        )) by {
            assert(b.map_values(f)[j] == f(x));
        }
        assert(b.map_values(f).to_multiset().count(f(x)) > 0) by {
            assert(b.map_values(f).contains(f(x))) by {
                assert(b.map_values(f)[j] == f(x));
            }
        }
        assert(a.map_values(f).to_multiset() =~= b.map_values(f).to_multiset());
    }
}

/// Assigns every record a bale slot: a seeded shuffle, a stable sort by
/// (target face, class), and the packing fold. Succeeds exactly when every
/// record carries a class and a target face; fails on the first that does
/// not, naming the missing field. On success the result is, bale slots
/// aside, a permutation of the input, and is the one sequence the seed
/// determines.
pub fn assign(records: Vec<ParticipantRecord>, seed: u64) -> (r: Result<
    Vec<ParticipantRecord>,
    AssignError,
>)
    requires
        records@.len() < 0x1000_0000_0000_0000,
    ensures
        match r {
            Ok(out) => {
                &&& all_keyed(records@)
                &&& out@ == assign_spec(records@, seed)
                &&& out@.len() == records@.len()
                &&& out@.map_values(|p: ParticipantRecord| strip_bale(p)).to_multiset()
                    == records@.map_values(|p: ParticipantRecord| strip_bale(p)).to_multiset()
            },
            Err(e) => !all_keyed(records@) && e == spec_missing_error(records@),
        },
{
    if let Some(e) = check_keyed(&records) {
        return Err(e);
    }
    let mut v = records;
    let ghost input = v@;
    shuffle_records(&mut v, seed);
    proof {
        assert(v@.to_multiset().len() == v@.len());
        assert(input.to_multiset().len() == input.len());
        assert(v@.len() == input.len());
        assert(all_keyed(v@)) by {
            assert forall|i: int| 0 <= i < v@.len() implies has_key(#[trigger] v@[i]) by {
                assert(v@.to_multiset().count(v@[i]) > 0) by {
                    assert(v@.contains(v@[i]));
                }
                assert(input.to_multiset().count(v@[i]) > 0);
                assert(input.contains(v@[i]));
                let j = choose|j: int| 0 <= j < input.len() && input[j] == v@[i];
                assert(has_key(input[j]));
            }
        }
    }
    let ghost shuffled_v = v@;
    sort_records(&mut v);
    let out = apply_positions(&v);
    proof {
        let strip = |p: ParticipantRecord| strip_bale(p);
        lemma_map_values_multiset(shuffled_v, input, strip);
        lemma_map_values_multiset(v@, shuffled_v, strip);
        assert(out@.map_values(strip) =~= v@.map_values(strip)) by {
            assert(forall|i: int|
                0 <= i < v@.len() ==> #[trigger] out@.map_values(strip)[i] == strip_bale(v@[i]));
        }
        assert(out@.map_values(strip).to_multiset() == input.map_values(strip).to_multiset());
        assert(out@.len() == input.len());
    }
    Ok(out)
}

/// At a group boundary the packing rule realigns: the first record of each
/// new key group stands on lane A of a fresh bale.
pub proof fn lemma_new_group_starts_fresh(keys: Seq<(int, int)>, i: int)
    requires
        0 <= i,
        i == 0 || keys[i] != keys[i - 1],
    ensures
        pos_at(keys, i) % 4 == 0,
        spec_slot_of(pos_at(keys, i)).lane == Lane::A,
{
    if i == 0 {
        assert(pos_at(keys, 0) == 4);
    } else {
        let p = pos_at(keys, i - 1);
        assert(pos_at(keys, i) == (p / 4 + 1) * 4);
        assert(((p / 4 + 1) * 4) % 4 == 0) by {
            vstd::arithmetic::div_mod::lemma_mod_multiples_basic(p / 4 + 1, 4);
        }
    }
}

/// Inside a group the packing rule hands out consecutive positions.
pub proof fn lemma_same_group_next_lane(keys: Seq<(int, int)>, i: int)
    requires
        0 < i,
        keys[i] == keys[i - 1],
    ensures
        pos_at(keys, i) == pos_at(keys, i - 1) + 1,
{
}

/// The records carrying one particular key.
pub open spec fn key_pred(k: (int, int)) -> spec_fn(ParticipantRecord) -> bool {
    |r: ParticipantRecord| spec_key(r) == k
}

/// Stable insertion appends a record to its own key's run and leaves every
/// other key's run unchanged.
proof fn lemma_insert_sorted_filter(t: Seq<ParticipantRecord>, x: ParticipantRecord, k: (int, int))
    ensures
        insert_sorted(t, x).filter(key_pred(k)) == if spec_key(x) == k {
            t.filter(key_pred(k)).push(x)
        } else {
            t.filter(key_pred(k))
        },
    decreases t.len(),
{
    reveal(Seq::filter);
    let pred = key_pred(k);
    if t.len() == 0 {
        assert(insert_sorted(t, x) =~= seq![x]);
        assert(seq![x].drop_last() =~= t);
    } else if key_le(t.last(), x) {
        assert(insert_sorted(t, x) == t.push(x));
        assert(t.push(x).drop_last() =~= t);
        assert(t.push(x).last() == x);
    } else {
        lemma_insert_sorted_filter(t.drop_last(), x, k);
        let u = insert_sorted(t.drop_last(), x);
        assert(insert_sorted(t, x) == u.push(t.last()));
        assert(u.push(t.last()).drop_last() =~= u);
        assert(u.push(t.last()).last() == t.last());
        if spec_key(x) == k {
            assert(spec_key(t.last()) != k);
        }
    }
}

/// The sort is stable: for every key, the records carrying it come out in
/// exactly the order they went in. Together with the seeded shuffle this is
/// the draw's fairness: the shuffle fixes the order inside each group, and
/// sorting only moves the groups.
pub proof fn lemma_sort_stable(s: Seq<ParticipantRecord>, k: (int, int))
    ensures
        sort_spec(s).filter(key_pred(k)) == s.filter(key_pred(k)),
    decreases s.len(),
{
    reveal(Seq::filter);
    if s.len() > 0 {
        lemma_sort_stable(s.drop_last(), k);
        lemma_insert_sorted_filter(sort_spec(s.drop_last()), s.last(), k);
        assert(sort_spec(s) == insert_sorted(sort_spec(s.drop_last()), s.last()));
    }
}

/// Records that all share one key form a single group and fill bales
/// consecutively: the record at `i` stands at position `4 + i`, so the
/// first four fill bale one and the fifth opens bale two.
pub proof fn lemma_single_group_consecutive(keys: Seq<(int, int)>, i: int)
    requires
        0 <= i < keys.len(),
        forall|j: int| 0 <= j < keys.len() ==> #[trigger] keys[j] == keys[0],
    ensures
        pos_at(keys, i) == 4 + i,
    decreases i,
{
    if i > 0 {
        lemma_single_group_consecutive(keys, i - 1);
    }
}

/// Assignment is deterministic: the same record sequence and the same seed
/// give the same assignment.
pub proof fn lemma_assign_deterministic(
    s1: Seq<ParticipantRecord>,
    s2: Seq<ParticipantRecord>,
    seed1: u64,
    seed2: u64,
)
    requires
        s1 == s2,
        seed1 == seed2,
    ensures
        assign_spec(s1, seed1) == assign_spec(s2, seed2),
{
}

} // verus!
