//! The one-shot roster sort: an axis (initiative, health or name), a
//! direction, and a stable order — creatures that compare equal keep their
//! prior relative order, so repeating a sort changes nothing.

use vstd::prelude::*;

use crate::creature::{Creature, CreatureView};
use vstd::string::StrSliceExecFns;

verus! {

/// The axis a one-shot sort orders by.
#[derive(Clone, Copy, Debug, PartialEq, Eq)]
pub enum SortField {
    Initiative,
    Health,
    Name,
}

/// Lexicographic order on text by character scalar value, the order the
/// standard string comparison gives.
pub open spec fn lex_le(a: Seq<char>, b: Seq<char>) -> bool
    decreases a.len(),
{
    if a.len() == 0 {
        true
    } else if b.len() == 0 {
        false
    } else if (a[0] as int) < (b[0] as int) {
        true
    } else if (a[0] as int) > (b[0] as int) {
        false
    } else {
        lex_le(a.drop_first(), b.drop_first())
    }
}

pub proof fn lemma_lex_le_total(a: Seq<char>, b: Seq<char>)
    ensures
        lex_le(a, b) || lex_le(b, a),
    decreases a.len(),
{
    if a.len() > 0 && b.len() > 0 && a[0] == b[0] {
        lemma_lex_le_total(a.drop_first(), b.drop_first());
    }
}

pub proof fn lemma_lex_le_trans(a: Seq<char>, b: Seq<char>, c: Seq<char>)
    requires
        lex_le(a, b),
        lex_le(b, c),
    ensures
        lex_le(a, c),
    decreases a.len(),
{
    if a.len() > 0 && b.len() > 0 && c.len() > 0 && a[0] == b[0] && b[0] == c[0] {
        lemma_lex_le_trans(a.drop_first(), b.drop_first(), c.drop_first());
    }
}

/// Ascending order of one field.
pub open spec fn field_le(f: SortField, a: CreatureView, b: CreatureView) -> bool {
    match f {
        SortField::Initiative => a.initiative <= b.initiative,
        SortField::Health => a.health <= b.health,
        SortField::Name => lex_le(a.name, b.name),
    }
}

/// The comparator in use: `desc` reverses the axis. Ties compare `true`
/// both ways, so their order is decided by insertion order alone.
pub open spec fn sort_le(f: SortField, desc: bool, a: CreatureView, b: CreatureView) -> bool {
    if desc {
        field_le(f, b, a)
    } else {
        field_le(f, a, b)
    }
}

pub proof fn lemma_field_le_total(f: SortField, a: CreatureView, b: CreatureView)
    ensures
        field_le(f, a, b) || field_le(f, b, a),
{
    if f is Name {
        lemma_lex_le_total(a.name, b.name);
    }
}

pub proof fn lemma_field_le_trans(f: SortField, a: CreatureView, b: CreatureView, c: CreatureView)
    requires
        field_le(f, a, b),
        field_le(f, b, c),
    ensures
        field_le(f, a, c),
{
    if f is Name {
        lemma_lex_le_trans(a.name, b.name, c.name);
    }
}

pub proof fn lemma_sort_le_total(f: SortField, desc: bool, a: CreatureView, b: CreatureView)
    ensures
        sort_le(f, desc, a, b) || sort_le(f, desc, b, a),
{
    lemma_field_le_total(f, a, b);
}

pub proof fn lemma_sort_le_trans(
    f: SortField,
    desc: bool,
    a: CreatureView,
    b: CreatureView,
    c: CreatureView,
)
    requires
        sort_le(f, desc, a, b),
        sort_le(f, desc, b, c),
    ensures
        sort_le(f, desc, a, c),
{
    if desc {
        lemma_field_le_trans(f, c, b, a);
    } else {
        lemma_field_le_trans(f, a, b, c);
    }
}

/// `x` inserted after every leading element that may stay before it.
pub open spec fn insert_sorted(
    f: SortField,
    desc: bool,
    l: Seq<CreatureView>,
    x: CreatureView,
) -> Seq<CreatureView>
    decreases l.len(),
{
    if l.len() > 0 && sort_le(f, desc, l[0], x) {
        seq![l[0]] + insert_sorted(f, desc, l.drop_first(), x)
    } else {
        seq![x] + l
    }
}

/// The roster after a stable sort: every element inserted in turn, each
/// placed after all elements already ordered that it need not precede.
pub open spec fn sort_spec(f: SortField, desc: bool, s: Seq<CreatureView>) -> Seq<CreatureView>
    decreases s.len(),
{
    if s.len() == 0 {
        s
    } else {
        insert_sorted(f, desc, sort_spec(f, desc, s.drop_last()), s.last())
    }
}

pub open spec fn sorted_by(f: SortField, desc: bool, s: Seq<CreatureView>) -> bool {
    forall|i: int, j: int| 0 <= i <= j < s.len() ==> sort_le(f, desc, s[i], s[j])
}

pub proof fn lemma_insert_sorted_len(f: SortField, desc: bool, l: Seq<CreatureView>, x: CreatureView)
    ensures
        insert_sorted(f, desc, l, x).len() == l.len() + 1,
    decreases l.len(),
{
    if l.len() > 0 && sort_le(f, desc, l[0], x) {
        lemma_insert_sorted_len(f, desc, l.drop_first(), x);
    }
}

pub proof fn lemma_sort_spec_len(f: SortField, desc: bool, s: Seq<CreatureView>)
    ensures
        sort_spec(f, desc, s).len() == s.len(),
    decreases s.len(),
{
    if s.len() > 0 {
        lemma_sort_spec_len(f, desc, s.drop_last());
        lemma_insert_sorted_len(f, desc, sort_spec(f, desc, s.drop_last()), s.last());
    }
}

proof fn lemma_insert_sorted_preserves_sorted(
    f: SortField,
    desc: bool,
    l: Seq<CreatureView>,
    x: CreatureView,
)
    requires
        sorted_by(f, desc, l),
    ensures
        sorted_by(f, desc, insert_sorted(f, desc, l, x)),
    decreases l.len(),
{
    let r = insert_sorted(f, desc, l, x);
    lemma_insert_sorted_len(f, desc, l, x);
    if l.len() > 0 && sort_le(f, desc, l[0], x) {
        let tail = l.drop_first();
        assert(sorted_by(f, desc, tail)) by {
            assert(forall|i: int, j: int|
                0 <= i <= j < tail.len() ==> sort_le(f, desc, tail[i], tail[j]) == sort_le(
                    f,
                    desc,
                    l[i + 1],
                    l[j + 1],
                ));
        }
        lemma_insert_sorted_preserves_sorted(f, desc, tail, x);
        let rt = insert_sorted(f, desc, tail, x);
        assert(r == seq![l[0]] + rt);
        assert forall|i: int, j: int| 0 <= i <= j < r.len() implies sort_le(
            f,
            desc,
            r[i],
            r[j],
        ) by {
            if i == 0 && j > 0 {
                assert(r[0] == l[0]);
                assert(r[j] == rt[j - 1]);
                // l[0] precedes x and every element of the tail, hence every
                // element of the tail's insertion.
                lemma_insert_sorted_element_sources(f, desc, tail, x, j - 1);
                if rt[j - 1] == x {
                    assert(sort_le(f, desc, l[0], x));
                } else {
                    assert(exists|k: int| 0 <= k < tail.len() && rt[j - 1] == tail[k]);
                    let k = choose|k: int| 0 <= k < tail.len() && rt[j - 1] == tail[k];
                    assert(sort_le(f, desc, l[0], l[k + 1]));
                }
            } else if i > 0 {
                assert(r[i] == rt[i - 1] && r[j] == rt[j - 1]);
            }
        }
    } else {
        assert(r == seq![x] + l);
        assert forall|i: int, j: int| 0 <= i <= j < r.len() implies sort_le(
            f,
            desc,
            r[i],
            r[j],
        ) by {
            lemma_sort_le_total(f, desc, x, x);
            if i == 0 && j > 0 {
                assert(r[j] == l[j - 1]);
                // x precedes l[0], which precedes the rest.
                if l.len() > 0 {
                    lemma_sort_le_total(f, desc, l[0], x);
                    assert(sort_le(f, desc, x, l[0]));
                    assert(sort_le(f, desc, l[0], l[j - 1]));
                    lemma_sort_le_trans(f, desc, x, l[0], l[j - 1]);
                }
            } else if i > 0 {
                assert(r[i] == l[i - 1] && r[j] == l[j - 1]);
            }
        }
    }
}

/// Every element of an insertion is either `x` or an element of `l`.
proof fn lemma_insert_sorted_element_sources(
    f: SortField,
    desc: bool,
    l: Seq<CreatureView>,
    x: CreatureView,
    i: int,
)
    requires
        0 <= i < insert_sorted(f, desc, l, x).len(),
    ensures
        insert_sorted(f, desc, l, x)[i] == x || exists|k: int|
            0 <= k < l.len() && insert_sorted(f, desc, l, x)[i] == l[k],
    decreases l.len(),
{
    let r = insert_sorted(f, desc, l, x);
    lemma_insert_sorted_len(f, desc, l, x);
    if l.len() > 0 && sort_le(f, desc, l[0], x) {
        let tail = l.drop_first();
        if i == 0 {
            assert(r[0] == l[0]);
        } else {
            lemma_insert_sorted_element_sources(f, desc, tail, x, i - 1);
            let rt = insert_sorted(f, desc, tail, x);
            assert(r[i] == rt[i - 1]);
            if rt[i - 1] != x {
                let k = choose|k: int| 0 <= k < tail.len() && rt[i - 1] == tail[k];
                assert(r[i] == l[k + 1]);
            }
        }
    } else {
        if i > 0 {
            assert(r[i] == l[i - 1]);
        }
    }
}

pub proof fn lemma_sort_spec_sorted(f: SortField, desc: bool, s: Seq<CreatureView>)
    ensures
        sorted_by(f, desc, sort_spec(f, desc, s)),
    decreases s.len(),
{
    if s.len() > 0 {
        lemma_sort_spec_sorted(f, desc, s.drop_last());
        lemma_insert_sorted_preserves_sorted(f, desc, sort_spec(f, desc, s.drop_last()), s.last());
    }
}

/// Where `x` comes after everything, insertion is an append.
proof fn lemma_insert_sorted_all_le(f: SortField, desc: bool, l: Seq<CreatureView>, x: CreatureView)
    requires
        forall|i: int| 0 <= i < l.len() ==> sort_le(f, desc, #[trigger] l[i], x),
    ensures
        insert_sorted(f, desc, l, x) == l.push(x),
    decreases l.len(),
{
    if l.len() > 0 && sort_le(f, desc, l[0], x) {
        let tail = l.drop_first();
        lemma_insert_sorted_all_le(f, desc, tail, x);
        assert(insert_sorted(f, desc, l, x) =~= l.push(x));
    } else {
        assert(l.len() == 0);
        assert(insert_sorted(f, desc, l, x) =~= l.push(x));
    }
}

/// Sorting an already sorted roster changes nothing.
pub proof fn lemma_sort_sorted_identity(f: SortField, desc: bool, s: Seq<CreatureView>)
    requires
        sorted_by(f, desc, s),
    ensures
        sort_spec(f, desc, s) == s,
    decreases s.len(),
{
    if s.len() > 0 {
        let head = s.drop_last();
        assert(sorted_by(f, desc, head)) by {
            assert(forall|i: int, j: int|
                0 <= i <= j < head.len() ==> sort_le(f, desc, head[i], head[j]) == sort_le(
                    f,
                    desc,
                    s[i],
                    s[j],
                ));
        }
        lemma_sort_sorted_identity(f, desc, head);
        assert(forall|i: int| 0 <= i < head.len() ==> sort_le(f, desc, #[trigger] head[i], s.last()));
        lemma_insert_sorted_all_le(f, desc, head, s.last());
        assert(head.push(s.last()) =~= s);
    }
}

/// Sorting by the same axis and direction twice gives the same order as
/// sorting once.
pub proof fn lemma_sort_idempotent(f: SortField, desc: bool, s: Seq<CreatureView>)
    ensures
        sort_spec(f, desc, sort_spec(f, desc, s)) == sort_spec(f, desc, s),
{
    lemma_sort_spec_sorted(f, desc, s);
    lemma_sort_sorted_identity(f, desc, sort_spec(f, desc, s));
}

/// Equal rank on the sort axis.
pub open spec fn field_eq(f: SortField, a: CreatureView, b: CreatureView) -> bool {
    field_le(f, a, b) && field_le(f, b, a)
}

/// The subsequence of `s` whose rank equals the rank of `x`, in order.
pub open spec fn kept(f: SortField, s: Seq<CreatureView>, x: CreatureView) -> Seq<CreatureView>
    decreases s.len(),
{
    if s.len() == 0 {
        s
    } else if field_eq(f, s[0], x) {
        seq![s[0]] + kept(f, s.drop_first(), x)
    } else {
        kept(f, s.drop_first(), x)
    }
}

proof fn lemma_kept_push(f: SortField, s: Seq<CreatureView>, y: CreatureView, x: CreatureView)
    ensures
        kept(f, s.push(y), x) == if field_eq(f, y, x) {
            kept(f, s, x).push(y)
        } else {
            kept(f, s, x)
        },
    decreases s.len(),
{
    let p = s.push(y);
    if s.len() == 0 {
        assert(p[0] == y);
        assert(p.drop_first() =~= Seq::<CreatureView>::empty());
        assert(kept(f, Seq::<CreatureView>::empty(), x) == Seq::<CreatureView>::empty());
        assert(kept(f, s, x) == s);
        if field_eq(f, y, x) {
            assert(kept(f, p, x) == seq![y] + kept(f, p.drop_first(), x));
            assert(kept(f, p, x) =~= kept(f, s, x).push(y));
        } else {
            assert(kept(f, p, x) == kept(f, p.drop_first(), x));
            assert(kept(f, p, x) =~= kept(f, s, x));
        }
    } else {
        assert(p[0] == s[0]);
        assert(p.drop_first() =~= s.drop_first().push(y));
        lemma_kept_push(f, s.drop_first(), y, x);
        if field_eq(f, s[0], x) {
            assert(kept(f, p, x) == seq![s[0]] + kept(f, p.drop_first(), x));
            assert(kept(f, s, x) == seq![s[0]] + kept(f, s.drop_first(), x));
        } else {
            assert(kept(f, p, x) == kept(f, p.drop_first(), x));
            assert(kept(f, s, x) == kept(f, s.drop_first(), x));
        }
        if field_eq(f, s[0], x) && field_eq(f, y, x) {
            assert(seq![s[0]] + kept(f, s.drop_first(), x).push(y) =~= (seq![s[0]] + kept(
                f,
                s.drop_first(),
                x,
            )).push(y));
        }
    }
}

proof fn lemma_kept_none(f: SortField, s: Seq<CreatureView>, x: CreatureView)
    requires
        forall|j: int| 0 <= j < s.len() ==> !field_eq(f, #[trigger] s[j], x),
    ensures
        kept(f, s, x) == Seq::<CreatureView>::empty(),
    decreases s.len(),
{
    if s.len() > 0 {
        lemma_kept_none(f, s.drop_first(), x);
    }
}

proof fn lemma_kept_insert_sorted(
    f: SortField,
    desc: bool,
    l: Seq<CreatureView>,
    y: CreatureView,
    x: CreatureView,
)
    requires
        sorted_by(f, desc, l),
    ensures
        kept(f, insert_sorted(f, desc, l, y), x) == if field_eq(f, y, x) {
            kept(f, l, x).push(y)
        } else {
            kept(f, l, x)
        },
    decreases l.len(),
{
    let r = insert_sorted(f, desc, l, y);
    if l.len() > 0 && sort_le(f, desc, l[0], y) {
        let tail = l.drop_first();
        assert(sorted_by(f, desc, tail)) by {
            assert(forall|i: int, j: int|
                0 <= i <= j < tail.len() ==> sort_le(f, desc, tail[i], tail[j]) == sort_le(
                    f,
                    desc,
                    l[i + 1],
                    l[j + 1],
                ));
        }
        lemma_kept_insert_sorted(f, desc, tail, y, x);
        let rt = insert_sorted(f, desc, tail, y);
        assert(r == seq![l[0]] + rt);
        assert(r[0] == l[0]);
        assert(r.drop_first() =~= rt);
        if field_eq(f, l[0], x) {
            assert(kept(f, r, x) == seq![l[0]] + kept(f, rt, x));
            assert(kept(f, l, x) == seq![l[0]] + kept(f, tail, x));
        } else {
            assert(kept(f, r, x) == kept(f, rt, x));
            assert(kept(f, l, x) == kept(f, tail, x));
        }
        if field_eq(f, l[0], x) && field_eq(f, y, x) {
            assert(seq![l[0]] + kept(f, tail, x).push(y) =~= (seq![l[0]] + kept(f, tail, x)).push(
                y,
            ));
        }
    } else {
        assert(r == seq![y] + l);
        assert(r[0] == y);
        assert(r.drop_first() =~= l);
        if field_eq(f, y, x) {
            // No element of l shares x's rank here: l is sorted and its head
            // already outranks y.
            assert forall|j: int| 0 <= j < l.len() implies !field_eq(f, #[trigger] l[j], x) by {
                if field_eq(f, l[j], x) {
                    assert(sort_le(f, desc, l[0], l[j]));
                    lemma_field_le_trans(f, l[j], x, y);
                    lemma_field_le_trans(f, y, x, l[j]);
                    if desc {
                        assert(field_le(f, l[j], l[0]));
                        lemma_field_le_trans(f, y, l[j], l[0]);
                        assert(sort_le(f, desc, l[0], y));
                    } else {
                        assert(field_le(f, l[0], l[j]));
                        lemma_field_le_trans(f, l[0], l[j], y);
                        assert(sort_le(f, desc, l[0], y));
                    }
                    assert(false);
                }
            }
            lemma_kept_none(f, l, x);
            assert(kept(f, r, x) == seq![y] + kept(f, l, x));
            assert(kept(f, r, x) =~= kept(f, l, x).push(y));
        } else {
            assert(kept(f, r, x) == kept(f, l, x));
        }
    }
}

/// Stability: sorting keeps the relative order of creatures whose rank on
/// the axis is equal. The creatures ranking equal with any fixed `x` read
/// out of the sorted roster exactly as they read out of the original.
pub proof fn lemma_sort_stable(f: SortField, desc: bool, s: Seq<CreatureView>, x: CreatureView)
    ensures
        kept(f, sort_spec(f, desc, s), x) == kept(f, s, x),
    decreases s.len(),
{
    if s.len() > 0 {
        let head = s.drop_last();
        lemma_sort_stable(f, desc, head, x);
        lemma_sort_spec_sorted(f, desc, head);
        lemma_kept_insert_sorted(f, desc, sort_spec(f, desc, head), s.last(), x);
        assert(head.push(s.last()) =~= s);
        lemma_kept_push(f, head, s.last(), x);
    }
}

/// Every element of the sorted roster is an element of the original.
pub proof fn lemma_sort_spec_elements(f: SortField, desc: bool, s: Seq<CreatureView>, i: int)
    requires
        0 <= i < sort_spec(f, desc, s).len(),
    ensures
        exists|k: int| 0 <= k < s.len() && sort_spec(f, desc, s)[i] == s[k],
    decreases s.len(),
{
    let r = sort_spec(f, desc, s);
    lemma_sort_spec_len(f, desc, s);
    let head = sort_spec(f, desc, s.drop_last());
    lemma_sort_spec_len(f, desc, s.drop_last());
    lemma_insert_sorted_element_sources(f, desc, head, s.last(), i);
    if r[i] == s.last() {
        assert(r[i] == s[s.len() - 1]);
    } else {
        let k = choose|k: int| 0 <= k < head.len() && r[i] == head[k];
        lemma_sort_spec_elements(f, desc, s.drop_last(), k);
        let k2 = choose|k2: int| 0 <= k2 < s.drop_last().len() && head[k] == s.drop_last()[k2];
        assert(r[i] == s[k2]);
    }
}

/// Standard string order on two texts, as executable code.
pub fn str_lex_le(a: &str, b: &str) -> (r: bool)
    ensures
        r == lex_le(a@, b@),
{
    let an = a.unicode_len();
    let bn = b.unicode_len();
    let mut i: usize = 0;
    proof {
        assert(a@.skip(0) =~= a@);
        assert(b@.skip(0) =~= b@);
    }
    while i < an && i < bn
        invariant
            i <= an,
            i <= bn,
            an == a@.len(),
            bn == b@.len(),
            lex_le(a@, b@) == lex_le(a@.skip(i as int), b@.skip(i as int)),
        decreases an - i,
    {
        let ca = a.get_char(i);
        let cb = b.get_char(i);
        proof {
            assert(a@.skip(i as int).len() > 0);
            assert(b@.skip(i as int).len() > 0);
            assert(a@.skip(i as int)[0] == ca);
            assert(b@.skip(i as int)[0] == cb);
        }
        if (ca as u32) < (cb as u32) {
            return true;
        }
        if (ca as u32) > (cb as u32) {
            return false;
        }
        proof {
            assert(a@.skip(i as int).drop_first() =~= a@.skip(i as int + 1));
            assert(b@.skip(i as int).drop_first() =~= b@.skip(i as int + 1));
        }
        i = i + 1;
    }
    proof {
        if i >= an {
            assert(a@.skip(i as int).len() == 0);
        } else {
            assert(b@.skip(i as int).len() == 0);
            assert(a@.skip(i as int).len() > 0);
        }
    }
    an <= bn
}

/// The comparator on whole creatures, as executable code.
pub fn creature_le(f: SortField, desc: bool, a: &Creature, b: &Creature) -> (r: bool)
    ensures
        r == sort_le(f, desc, a@, b@),
{
    let (x, y) = if desc {
        (b, a)
    } else {
        (a, b)
    };
    match f {
        SortField::Initiative => x.initiative <= y.initiative,
        SortField::Health => x.health <= y.health,
        SortField::Name => str_lex_le(x.name.as_str(), y.name.as_str()),
    }
}

/// The views of a roster of creatures.
pub open spec fn roster_view(s: Seq<Creature>) -> Seq<CreatureView> {
    s.map_values(|c: Creature| c@)
}

/// Insertion at the first position whose element need not stay before `x`
/// is exactly the specified insertion.
proof fn lemma_insert_sorted_at(
    f: SortField,
    desc: bool,
    l: Seq<CreatureView>,
    x: CreatureView,
    j: int,
)
    requires
        0 <= j <= l.len(),
        forall|k: int| 0 <= k < j ==> sort_le(f, desc, #[trigger] l[k], x),
        j == l.len() || !sort_le(f, desc, l[j], x),
    ensures
        insert_sorted(f, desc, l, x) == l.take(j) + seq![x] + l.skip(j),
    decreases l.len(),
{
    if l.len() > 0 && sort_le(f, desc, l[0], x) {
        assert(j > 0);
        let tail = l.drop_first();
        lemma_insert_sorted_at(f, desc, tail, x, j - 1);
        assert(tail.take(j - 1) =~= l.take(j).drop_first());
        assert(tail.skip(j - 1) =~= l.skip(j));
        assert(seq![l[0]] + (tail.take(j - 1) + seq![x] + tail.skip(j - 1)) =~= l.take(j) + seq![x]
            + l.skip(j));
    } else {
        assert(j == 0);
        assert(l.take(0) =~= Seq::<CreatureView>::empty());
        assert(l.skip(0) =~= l);
        assert(seq![x] + l =~= l.take(0) + seq![x] + l.skip(0));
    }
}

/// Stable sort of the roster in place by `f`, reversed when `desc`.
pub fn sort_creatures(v: &mut Vec<Creature>, f: SortField, desc: bool)
    ensures
        roster_view(final(v)@) == sort_spec(f, desc, roster_view(old(v)@)),
{
    let ghost orig = roster_view(v@);
    let n = v.len();
    let mut out: Vec<Creature> = Vec::new();
    let mut idx: usize = 0;
    proof {
        assert(orig.take(0) =~= Seq::<CreatureView>::empty());
        assert(roster_view(out@) =~= sort_spec(f, desc, orig.take(0)));
    }
    while idx < n
        invariant
            idx <= n,
            n == v@.len(),
            v@ == old(v)@,
            orig == roster_view(v@),
            out@.len() == idx,
            roster_view(out@) == sort_spec(f, desc, orig.take(idx as int)),
        decreases n - idx,
    {
        let x: Creature = (&v[idx]).duplicate();
        let mut j: usize = 0;
        let mut scanning = true;
        while scanning
            invariant
                j <= out@.len(),
                x@ == orig[idx as int],
                idx < orig.len(),
                forall|k: int| 0 <= k < j ==> sort_le(f, desc, roster_view(out@)[k], x@),
                !scanning ==> j == out@.len() || !sort_le(
                    f,
                    desc,
                    roster_view(out@)[j as int],
                    x@,
                ),
            decreases out@.len() - j + (if scanning {
                1int
            } else {
                0int
            }),
        {
            if j == out.len() {
                scanning = false;
            } else if !creature_le(f, desc, &out[j], &x) {
                scanning = false;
            } else {
                j = j + 1;
            }
        }
        let ghost out_pre = roster_view(out@);
        proof {
            lemma_insert_sorted_at(f, desc, out_pre, x@, j as int);
        }
        out.insert(j, x);
        proof {
            assert(roster_view(out@) =~= out_pre.take(j as int) + seq![x@] + out_pre.skip(
                j as int,
            ));
            assert(orig.take(idx as int + 1).drop_last() =~= orig.take(idx as int));
            assert(orig.take(idx as int + 1).last() == orig[idx as int]);
            assert(roster_view(out@) == sort_spec(f, desc, orig.take(idx as int + 1)));
        }
        idx = idx + 1;
    }
    proof {
        assert(orig.take(n as int) =~= orig);
    }
    *v = out;
}

} // verus!
