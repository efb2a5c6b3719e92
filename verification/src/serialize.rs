//! Directory serialization.
//!
//! A directory's entries are sorted, rendered as NUL-separated records, and
//! joined with double-NUL separators. The resulting string is stored as a
//! chunk of its own; its hash becomes the directory's content field. The
//! sort makes the serialization a pure function of the set of entries, so
//! the filesystem's enumeration order never reaches the wire.

use vstd::prelude::*;
use vstd::relations::{sorted_by, total_ordering};
use vstd::seq_lib::group_to_multiset_ensures;
use vstd::seq_lib::lemma_sorted_unique;

use crate::dirent::{record_chars, render_record, DirEnt};
use crate::seal::blake2b256_hex;

verus! {

/// Lexicographic order on character strings, by code point; a prefix sorts
/// before its extensions.
pub open spec fn lex_le(a: Seq<char>, b: Seq<char>) -> bool
    decreases a.len(),
{
    if a.len() == 0 {
        true
    } else if b.len() == 0 {
        false
    } else if a[0] < b[0] {
        true
    } else if b[0] < a[0] {
        false
    } else {
        lex_le(a.drop_first(), b.drop_first())
    }
}

/// The lexicographic order as a relation value.
pub open spec fn lex_leq() -> spec_fn(Seq<char>, Seq<char>) -> bool {
    |a: Seq<char>, b: Seq<char>| lex_le(a, b)
}

proof fn lemma_lex_le_refl(a: Seq<char>)
    ensures
        lex_le(a, a),
    decreases a.len(),
{
    if a.len() > 0 {
        lemma_lex_le_refl(a.drop_first());
    }
}

proof fn lemma_lex_le_total(a: Seq<char>, b: Seq<char>)
    ensures
        lex_le(a, b) || lex_le(b, a),
    decreases a.len(),
{
    if a.len() > 0 && b.len() > 0 {
        lemma_lex_le_total(a.drop_first(), b.drop_first());
    }
}

proof fn lemma_lex_le_antisym(a: Seq<char>, b: Seq<char>)
    requires
        lex_le(a, b),
        lex_le(b, a),
    ensures
        a == b,
    decreases a.len(),
{
    if a.len() > 0 && b.len() > 0 {
        lemma_lex_le_antisym(a.drop_first(), b.drop_first());
        assert(a[0] == b[0]);
        assert(a =~= seq![a[0]] + a.drop_first());
        assert(b =~= seq![b[0]] + b.drop_first());
    } else {
        assert(a =~= b);
    }
}

proof fn lemma_lex_le_trans(a: Seq<char>, b: Seq<char>, c: Seq<char>)
    requires
        lex_le(a, b),
        lex_le(b, c),
    ensures
        lex_le(a, c),
    decreases a.len(),
{
    if a.len() > 0 && b.len() > 0 && c.len() > 0 {
        if !(a[0] < b[0]) && !(b[0] < c[0]) {
            lemma_lex_le_trans(a.drop_first(), b.drop_first(), c.drop_first());
        }
    }
}

/// The lexicographic order is a total order.
pub proof fn lemma_lex_total_ordering()
    ensures
        total_ordering(lex_leq()),
{
    let leq = lex_leq();
    assert forall|x: Seq<char>| #[trigger] leq(x, x) by {
        lemma_lex_le_refl(x);
    }
    assert forall|x: Seq<char>, y: Seq<char>| #[trigger] leq(x, y) && #[trigger] leq(y, x)
        implies x == y by {
        lemma_lex_le_antisym(x, y);
    }
    assert forall|x: Seq<char>, y: Seq<char>, z: Seq<char>|
        #[trigger] leq(x, y) && #[trigger] leq(y, z) implies leq(x, z) by {
        lemma_lex_le_trans(x, y, z);
    }
    assert forall|x: Seq<char>, y: Seq<char>| #[trigger] leq(x, y) || #[trigger] leq(y, x) by {
        lemma_lex_le_total(x, y);
    }
}

/// Dropping an equal first character on both sides keeps the order.
proof fn lemma_lex_le_skip(a: Seq<char>, b: Seq<char>, i: int)
    requires
        0 <= i <= a.len(),
        i <= b.len(),
        forall|j: int| 0 <= j < i ==> a[j] == b[j],
    ensures
        lex_le(a, b) == lex_le(a.skip(i), b.skip(i)),
    decreases i,
{
    if i > 0 {
        assert(lex_le(a, b) == lex_le(a.drop_first(), b.drop_first()));
        lemma_lex_le_skip(a.drop_first(), b.drop_first(), i - 1);
        assert(a.drop_first().skip(i - 1) =~= a.skip(i));
        assert(b.drop_first().skip(i - 1) =~= b.skip(i));
    } else {
        assert(a.skip(0) =~= a);
        assert(b.skip(0) =~= b);
    }
}

/// Compare two strings in lexicographic order.
pub fn str_lex_le(a: &str, b: &str) -> (r: bool)
    ensures
        r == lex_le(a@, b@),
{
    let alen = a.unicode_len();
    let blen = b.unicode_len();
    let mut i: usize = 0;
    while i < alen && i < blen
        invariant
            0 <= i <= alen,
            i <= blen,
            alen == a@.len(),
            blen == b@.len(),
            forall|j: int| 0 <= j < i ==> a@[j] == b@[j],
        decreases alen - i,
    {
        let ca = a.get_char(i);
        let cb = b.get_char(i);
        if ca != cb {
            proof {
                lemma_lex_le_skip(a@, b@, i as int);
                assert(a@.skip(i as int)[0] == a@[i as int]);
                assert(b@.skip(i as int)[0] == b@[i as int]);
            }
            return ca < cb;
        }
        i += 1;
    }
    proof {
        lemma_lex_le_skip(a@, b@, i as int);
    }
    alen <= blen
}

/// The views of a vector of strings.
pub open spec fn views_of(s: Seq<String>) -> Seq<Seq<char>> {
    s.map_values(|x: String| x@)
}

/// The records of an entry list, in enumeration order.
pub open spec fn records_of(entries: Seq<DirEnt>) -> Seq<Seq<char>> {
    entries.map_values(|e: DirEnt| record_chars(e))
}

pub proof fn lemma_views_remove(s: Seq<String>, i: int)
    requires
        0 <= i < s.len(),
    ensures
        views_of(s.remove(i)) =~= views_of(s).remove(i),
{
}

pub proof fn lemma_views_push(s: Seq<String>, x: String)
    ensures
        views_of(s.push(x)) =~= views_of(s).push(x@),
{
}

/// Sort records into lexicographic order. The result is exactly the
/// spec-level sort of the input.
fn sort_records(v: Vec<String>) -> (r: Vec<String>)
    ensures
        views_of(r@) == views_of(v@).sort_by(lex_leq()),
{
    broadcast use group_to_multiset_ensures;

    let ghost orig = views_of(v@);
    let mut src = v;
    let mut out: Vec<String> = Vec::new();
    proof {
        assert(views_of(out@) =~= Seq::<Seq<char>>::empty());
        assert(views_of(out@).to_multiset().add(views_of(src@).to_multiset()) =~=
            orig.to_multiset());
    }
    while src.len() > 0
        invariant
            views_of(out@).to_multiset().add(views_of(src@).to_multiset())
                == orig.to_multiset(),
            sorted_by(views_of(out@), lex_leq()),
            forall|i: int, j: int|
                0 <= i < out@.len() && 0 <= j < src@.len() ==> lex_le(
                    #[trigger] out@[i]@,
                    #[trigger] src@[j]@,
                ),
        decreases src.len(),
    {
        let mut m: usize = 0;
        let mut k: usize = 1;
        proof {
            lemma_lex_le_refl(src@[0]@);
        }
        while k < src.len()
            invariant
                0 < src@.len(),
                0 <= m < k,
                k <= src@.len(),
                forall|j: int| 0 <= j < k ==> lex_le(src@[m as int]@, #[trigger] src@[j]@),
            decreases src@.len() - k,
        {
            if str_lex_le(src[k].as_str(), src[m].as_str()) {
                proof {
                    assert forall|j: int| 0 <= j < k + 1 implies lex_le(
                        src@[k as int]@,
                        #[trigger] src@[j]@,
                    ) by {
                        if j < k {
                            lemma_lex_le_trans(src@[k as int]@, src@[m as int]@, src@[j]@);
                        } else {
                            lemma_lex_le_refl(src@[k as int]@);
                        }
                    }
                }
                m = k;
            } else {
                proof {
                    lemma_lex_le_total(src@[k as int]@, src@[m as int]@);
                }
            }
            k += 1;
        }
        let ghost pre_src = src@;
        let ghost pre_out = out@;
        let x = src.remove(m);
        out.push(x);
        proof {
            broadcast use vstd::multiset::group_multiset_axioms;

            lemma_views_remove(pre_src, m as int);
            lemma_views_push(pre_out, x);
            assert(out@ =~= pre_out.push(x));
            assert(views_of(out@) =~= views_of(pre_out).push(x@));
            assert(views_of(src@) =~= views_of(pre_src).remove(m as int));
            vstd::seq_lib::to_multiset_build(views_of(pre_out), x@);
            assert(views_of(out@).to_multiset() =~= views_of(pre_out).to_multiset().insert(x@));
            assert(views_of(pre_src)[m as int] == x@);
            vstd::seq_lib::to_multiset_remove(views_of(pre_src), m as int);
            assert(views_of(src@).to_multiset() =~= views_of(pre_src).to_multiset().remove(x@));
            assert(views_of(pre_src).to_multiset().contains(x@)) by {
                assert(views_of(pre_src)[m as int] == x@);
                assert(views_of(pre_src).contains(x@));
                vstd::seq_lib::to_multiset_contains(views_of(pre_src), x@);
            }
            assert(views_of(out@).to_multiset().add(views_of(src@).to_multiset()) =~=
                orig.to_multiset());
            // the removed minimum stays below everything still in src
            assert forall|j: int| 0 <= j < src@.len() implies lex_le(x@, #[trigger] src@[j]@) by {
                if j < m {
                    assert(src@[j] == pre_src[j]);
                } else {
                    assert(src@[j] == pre_src[j + 1]);
                }
            }
            // out stays sorted: every old element is below x
            assert(sorted_by(views_of(out@), lex_leq())) by {
                assert(forall|i: int|
                    0 <= i < pre_out.len() ==> lex_le(#[trigger] pre_out[i]@, x@));
                assert(forall|i: int, j: int|
                    0 <= i < j < views_of(out@).len() ==> lex_leq()(
                        views_of(out@)[i],
                        views_of(out@)[j],
                    ));
            }
        }
    }
    proof {
        assert(views_of(src@) =~= Seq::<Seq<char>>::empty());
        assert(views_of(out@).to_multiset() =~= orig.to_multiset());
        lemma_lex_total_ordering();
        orig.lemma_sort_by_ensures(lex_leq());
        lemma_sorted_unique(views_of(out@), orig.sort_by(lex_leq()), lex_leq());
    }
    out
}

/// The double-NUL separator between records.
pub open spec fn dsep() -> Seq<char> {
    seq!['\0', '\0']
}

/// The join of a record list: records in order, double-NUL separated.
pub open spec fn join_records(rs: Seq<Seq<char>>) -> Seq<char>
    decreases rs.len(),
{
    if rs.len() == 0 {
        Seq::empty()
    } else if rs.len() == 1 {
        rs[0]
    } else {
        join_records(rs.drop_last()) + dsep() + rs.last()
    }
}

/// The serialization of a record list: the records sorted, then joined.
pub open spec fn spec_serialize(rs: Seq<Seq<char>>) -> Seq<char> {
    join_records(rs.sort_by(lex_leq()))
}

/// Serialize a directory's entries: render each entry as its record, sort
/// the records lexicographically, and join them with double-NUL separators.
pub fn serialize_ents(entries: &Vec<DirEnt>) -> (r: String)
    ensures
        r@ == spec_serialize(records_of(entries@)),
{
    let mut records: Vec<String> = Vec::new();
    let mut i: usize = 0;
    while i < entries.len()
        invariant
            0 <= i <= entries@.len(),
            views_of(records@) =~= records_of(entries@).take(i as int),
        decreases entries@.len() - i,
    {
        let ghost pre = records@;
        records.push(render_record(&entries[i]));
        proof {
            lemma_views_push(pre, records@.last());
            assert(views_of(records@) =~= records_of(entries@).take(i + 1));
        }
        i += 1;
    }
    proof {
        assert(records_of(entries@).take(entries@.len() as int) =~= records_of(entries@));
    }
    let sorted = sort_records(records);
    let mut r = String::new();
    let mut j: usize = 0;
    proof {
        reveal_strlit("\0\0");
    }
    while j < sorted.len()
        invariant
            0 <= j <= sorted@.len(),
            views_of(sorted@) == records_of(entries@).sort_by(lex_leq()),
            r@ == join_records(views_of(sorted@).take(j as int)),
            "\0\0"@ =~= dsep(),
        decreases sorted@.len() - j,
    {
        if j != 0 {
            r.append("\0\0");
        }
        r.append(sorted[j].as_str());
        proof {
            assert(views_of(sorted@).take(j + 1).drop_last() =~= views_of(sorted@).take(
                j as int,
            ));
            assert(views_of(sorted@).take(j + 1).last() == sorted@[j as int]@);
            if j == 0 {
                assert(r@ =~= join_records(views_of(sorted@).take(1)));
            }
        }
        j += 1;
    }
    proof {
        assert(views_of(sorted@).take(sorted@.len() as int) =~= views_of(sorted@));
    }
    r
}

/// Equal entry multisets yield equal record multisets.
proof fn lemma_records_multiset(e1: Seq<DirEnt>, e2: Seq<DirEnt>)
    requires
        e1.to_multiset() == e2.to_multiset(),
    ensures
        records_of(e1).to_multiset() == records_of(e2).to_multiset(),
    decreases e1.len(),
{
    broadcast use group_to_multiset_ensures;

    if e1.len() == 0 {
        assert(e2.to_multiset().len() == 0);
        assert(e2.len() == 0);
        assert(records_of(e1) =~= records_of(e2));
    } else {
        let x = e1.last();
        let e1p = e1.drop_last();
        assert(e1 =~= e1p.push(x));
        assert(e1.to_multiset().contains(x));
        assert(e2.to_multiset().contains(x));
        let i = choose|i: int| 0 <= i < e2.len() && e2[i] == x;
        let e2p = e2.remove(i);
        assert(e1p =~= e1.remove(e1.len() - 1));
        assert(e1p.to_multiset() == e1.to_multiset().remove(x));
        assert(e2p.to_multiset() == e2.to_multiset().remove(x));
        lemma_records_multiset(e1p, e2p);
        assert(records_of(e1) =~= records_of(e1p).push(record_chars(x)));
        assert(records_of(e1).to_multiset() == records_of(e1p).to_multiset().insert(
            record_chars(x),
        ));
        assert(records_of(e2p) =~= records_of(e2).remove(i));
        assert(records_of(e2p).to_multiset() == records_of(e2).to_multiset().remove(
            records_of(e2)[i],
        ));
        assert(records_of(e2)[i] == record_chars(x));
        assert(records_of(e2).to_multiset().contains(record_chars(x))) by {
            assert(records_of(e2).contains(record_chars(x)));
        }
        assert(records_of(e2).to_multiset() =~= records_of(e2p).to_multiset().insert(
            record_chars(x),
        ));
    }
}

/// NUL is the least character: anything else sorts after it.
proof fn lemma_nul_least(c: char)
    requires
        c != '\0',
    ensures
        '\0' < c,
{
    assert(('\0' as int) == 0);
    assert((c as int) >= 0);
    assert((c as int) != 0);
}

/// A NUL splits the comparison: strings that differ before their first NUL
/// compare exactly as their NUL-free prefixes do, whatever follows.
proof fn lemma_lex_le_cut(x: Seq<char>, u: Seq<char>, y: Seq<char>, v: Seq<char>)
    requires
        x != y,
        forall|i: int| 0 <= i < x.len() ==> x[i] != '\0',
        forall|i: int| 0 <= i < y.len() ==> y[i] != '\0',
    ensures
        lex_le(x + seq!['\0'] + u, y + seq!['\0'] + v) == lex_le(x, y),
    decreases x.len(),
{
    let xs = x + seq!['\0'] + u;
    let ys = y + seq!['\0'] + v;
    if x.len() == 0 {
        if y.len() == 0 {
            assert(x =~= y);
        }
        assert(y.len() > 0);
        assert(xs[0] == '\0');
        assert(ys[0] == y[0]);
        lemma_nul_least(y[0]);
        assert(xs[0] < ys[0]);
    } else if y.len() == 0 {
        assert(ys[0] == '\0');
        assert(xs[0] == x[0]);
        lemma_nul_least(x[0]);
        assert(ys[0] < xs[0]);
    } else {
        assert(xs[0] == x[0]);
        assert(ys[0] == y[0]);
        if !(x[0] < y[0]) && !(y[0] < x[0]) {
            assert(x[0] == y[0]);
            assert(x.drop_first() != y.drop_first()) by {
                if x.drop_first() == y.drop_first() {
                    assert(x =~= seq![x[0]] + x.drop_first());
                    assert(y =~= seq![y[0]] + y.drop_first());
                }
            }
            lemma_lex_le_cut(x.drop_first(), u, y.drop_first(), v);
            assert(xs.drop_first() =~= x.drop_first() + seq!['\0'] + u);
            assert(ys.drop_first() =~= y.drop_first() + seq!['\0'] + v);
        }
    }
}

/// Records of entries with distinct NUL-free names order exactly as the
/// names do: sorting the records sorts the directory by name, as a listing
/// shows it.
#[verifier::rlimit(50)]
pub proof fn lemma_record_order_is_name_order(a: DirEnt, b: DirEnt)
    requires
        a.name@ != b.name@,
        forall|i: int| 0 <= i < a.name@.len() ==> a.name@[i] != '\0',
        forall|i: int| 0 <= i < b.name@.len() ==> b.name@[i] != '\0',
    ensures
        lex_le(record_chars(a), record_chars(b)) == lex_le(a.name@, b.name@),
{
    let rest_a = crate::dirent::etype_chars(a.etype) + crate::dirent::nul() + a.content@
        + crate::dirent::nul() + crate::numfmt::dec_of(a.size as nat) + crate::dirent::nul()
        + crate::numfmt::dec_of(a.mode as nat) + crate::dirent::nul() + crate::numfmt::dec_of(
        a.uid as nat,
    ) + crate::dirent::nul() + crate::numfmt::dec_of(a.gid as nat) + crate::dirent::nul()
        + crate::numfmt::dec_of_int(a.mtime as int) + crate::dirent::nul()
        + crate::numfmt::dec_of_int(a.atime as int) + crate::dirent::nul()
        + crate::numfmt::dec_of_int(a.ctime as int);
    let rest_b = crate::dirent::etype_chars(b.etype) + crate::dirent::nul() + b.content@
        + crate::dirent::nul() + crate::numfmt::dec_of(b.size as nat) + crate::dirent::nul()
        + crate::numfmt::dec_of(b.mode as nat) + crate::dirent::nul() + crate::numfmt::dec_of(
        b.uid as nat,
    ) + crate::dirent::nul() + crate::numfmt::dec_of(b.gid as nat) + crate::dirent::nul()
        + crate::numfmt::dec_of_int(b.mtime as int) + crate::dirent::nul()
        + crate::numfmt::dec_of_int(b.atime as int) + crate::dirent::nul()
        + crate::numfmt::dec_of_int(b.ctime as int);
    assert(record_chars(a) =~= a.name@ + seq!['\0'] + rest_a);
    assert(record_chars(b) =~= b.name@ + seq!['\0'] + rest_b);
    lemma_lex_le_cut(a.name@, rest_a, b.name@, rest_b);
}

/// Directory-order independence: serializing the same entries in any
/// enumeration order yields the same string, record for record.
pub proof fn lemma_order_independence(e1: Seq<DirEnt>, e2: Seq<DirEnt>)
    requires
        e1.to_multiset() == e2.to_multiset(),
    ensures
        spec_serialize(records_of(e1)) == spec_serialize(records_of(e2)),
{
    lemma_records_multiset(e1, e2);
    lemma_lex_total_ordering();
    records_of(e1).lemma_sort_by_ensures(lex_leq());
    records_of(e2).lemma_sort_by_ensures(lex_leq());
    lemma_sorted_unique(
        records_of(e1).sort_by(lex_leq()),
        records_of(e2).sort_by(lex_leq()),
        lex_leq(),
    );
}

/// Merkle determinism: a directory chunk's hash is a pure function of the
/// bucket seed and the set of entries; the enumeration order, and anything
/// else about the client's state, never reaches it.
pub proof fn lemma_merkle_determinism(seed: Seq<u8>, e1: Seq<DirEnt>, e2: Seq<DirEnt>)
    requires
        e1.to_multiset() == e2.to_multiset(),
    ensures
        blake2b256_hex(seed + vstd::utf8::encode_utf8(spec_serialize(records_of(e1))))
            == blake2b256_hex(seed + vstd::utf8::encode_utf8(spec_serialize(records_of(e2)))),
{
    lemma_order_independence(e1, e2);
}

} // verus!
