//! Text utilities: the split/join model for multi-line notes, and thin
//! wrappers over the two `String` editing operations that vstd gives no
//! specification for.

use vstd::prelude::*;
use vstd::string::StrSliceExecFns;

verus! {

/// Relies on `String::push`: appends one character at the end.
#[verifier::external_body]
pub(crate) fn string_push(s: &mut String, c: char)
    ensures
        final(s)@ == old(s)@.push(c),
{
    s.push(c);
}

/// Relies on `String::pop`: removes the last character, if any.
#[verifier::external_body]
pub(crate) fn string_pop(s: &mut String)
    ensures
        old(s)@.len() == 0 ==> final(s)@ == old(s)@,
        old(s)@.len() > 0 ==> final(s)@ == old(s)@.drop_last(),
{
    s.pop();
}

/// True when `l` holds no newline character, as a single editor line must.
pub open spec fn line_clean(l: Seq<char>) -> bool {
    forall|i: int| 0 <= i < l.len() ==> #[trigger] l[i] != '\n'
}

/// The lines of `s`, split at newline characters. There is always at least
/// one line: empty text is one empty line, and a trailing newline opens a
/// final empty line.
pub open spec fn split_lines(s: Seq<char>) -> Seq<Seq<char>>
    decreases s.len(),
{
    if s.len() == 0 {
        seq![Seq::<char>::empty()]
    } else if s.last() == '\n' {
        split_lines(s.drop_last()).push(Seq::<char>::empty())
    } else {
        let sp = split_lines(s.drop_last());
        sp.update(sp.len() - 1, sp.last().push(s.last()))
    }
}

/// The lines joined back into one text, with a newline between each pair.
pub open spec fn join_lines(ls: Seq<Seq<char>>) -> Seq<char>
    decreases ls.len(),
{
    if ls.len() == 0 {
        Seq::<char>::empty()
    } else if ls.len() == 1 {
        ls[0]
    } else {
        join_lines(ls.drop_last()) + seq!['\n'] + ls.last()
    }
}

pub proof fn lemma_split_lines_len(s: Seq<char>)
    ensures
        split_lines(s).len() >= 1,
    decreases s.len(),
{
    if s.len() > 0 {
        lemma_split_lines_len(s.drop_last());
    }
}

pub proof fn lemma_split_lines_clean(s: Seq<char>)
    ensures
        forall|j: int|
            0 <= j < split_lines(s).len() ==> line_clean(#[trigger] split_lines(s)[j]),
    decreases s.len(),
{
    lemma_split_lines_len(s);
    if s.len() == 0 {
    } else if s.last() == '\n' {
        lemma_split_lines_clean(s.drop_last());
        let sp = split_lines(s.drop_last());
        assert forall|j: int| 0 <= j < split_lines(s).len() implies line_clean(
            #[trigger] split_lines(s)[j],
        ) by {
            if j < sp.len() {
                assert(split_lines(s)[j] == sp[j]);
            } else {
                assert(split_lines(s)[j] =~= Seq::<char>::empty());
            }
        }
    } else {
        lemma_split_lines_clean(s.drop_last());
        lemma_split_lines_len(s.drop_last());
        let sp = split_lines(s.drop_last());
        assert forall|j: int| 0 <= j < split_lines(s).len() implies line_clean(
            #[trigger] split_lines(s)[j],
        ) by {
            if j < sp.len() - 1 {
                assert(split_lines(s)[j] == sp[j]);
            } else {
                assert(split_lines(s)[j] == sp.last().push(s.last()));
                assert(line_clean(sp.last()));
                assert forall|i: int| 0 <= i < sp.last().push(s.last()).len() implies #[trigger] sp
                    .last().push(s.last())[i] != '\n' by {
                    if i < sp.last().len() {
                        assert(sp.last().push(s.last())[i] == sp.last()[i]);
                    } else {
                        assert(sp.last().push(s.last())[i] == s.last());
                    }
                }
            }
        }
    }
}

/// Joining the split of any text gives the text back.
pub proof fn lemma_join_split(s: Seq<char>)
    ensures
        join_lines(split_lines(s)) == s,
    decreases s.len(),
{
    lemma_split_lines_len(s);
    if s.len() == 0 {
        assert(join_lines(split_lines(s)) =~= s);
    } else if s.last() == '\n' {
        lemma_join_split(s.drop_last());
        lemma_split_lines_len(s.drop_last());
        let sp = split_lines(s.drop_last());
        let whole = sp.push(Seq::<char>::empty());
        assert(whole.drop_last() =~= sp);
        assert(whole.len() >= 2);
        assert(join_lines(whole) == join_lines(sp) + seq!['\n'] + Seq::<char>::empty());
        assert(join_lines(whole) =~= s);
    } else {
        lemma_join_split(s.drop_last());
        lemma_split_lines_len(s.drop_last());
        let sp = split_lines(s.drop_last());
        let whole = sp.update(sp.len() - 1, sp.last().push(s.last()));
        if sp.len() == 1 {
            assert(whole.len() == 1);
            assert(join_lines(whole) == whole[0]);
            assert(whole[0] == sp[0].push(s.last()));
            assert(join_lines(sp) == sp[0]);
            assert(join_lines(whole) =~= s);
        } else {
            assert(whole.drop_last() =~= sp.drop_last());
            assert(whole.last() == sp.last().push(s.last()));
            assert(join_lines(whole) == join_lines(sp.drop_last()) + seq!['\n'] + sp.last().push(
                s.last(),
            ));
            assert(join_lines(sp) == join_lines(sp.drop_last()) + seq!['\n'] + sp.last());
            assert(join_lines(whole) =~= join_lines(sp).push(s.last()));
            assert(join_lines(sp).push(s.last()) =~= s);
        }
    }
}

proof fn lemma_split_single_clean_line(l: Seq<char>)
    requires
        line_clean(l),
    ensures
        split_lines(l) == seq![l],
    decreases l.len(),
{
    if l.len() == 0 {
        assert(split_lines(l) =~~= seq![l]);
    } else {
        assert(line_clean(l.drop_last()));
        lemma_split_single_clean_line(l.drop_last());
        assert(l.last() != '\n');
        let sp = split_lines(l.drop_last());
        assert(sp == seq![l.drop_last()]);
        assert(sp.update(sp.len() - 1, sp.last().push(l.last())) =~= seq![l.drop_last().push(
            l.last(),
        )]);
        assert(l.drop_last().push(l.last()) =~= l);
    }
}

proof fn lemma_split_append_line(x: Seq<char>, l: Seq<char>)
    requires
        line_clean(l),
    ensures
        split_lines(x + seq!['\n'] + l) == split_lines(x).push(l),
    decreases l.len(),
{
    if l.len() == 0 {
        let s = x + seq!['\n'] + l;
        assert(s.last() == '\n');
        assert(s.drop_last() =~= x);
        assert(split_lines(s) == split_lines(x).push(Seq::<char>::empty()));
        assert(split_lines(x).push(Seq::<char>::empty()) =~~= split_lines(x).push(l));
    } else {
        assert(line_clean(l.drop_last()));
        lemma_split_append_line(x, l.drop_last());
        lemma_split_lines_len(x);
        let s = x + seq!['\n'] + l;
        assert(s.last() == l.last());
        assert(s.last() != '\n');
        assert(s.drop_last() =~= x + seq!['\n'] + l.drop_last());
        let sp = split_lines(s.drop_last());
        assert(sp == split_lines(x).push(l.drop_last()));
        assert(split_lines(s) == sp.update(sp.len() - 1, sp.last().push(s.last())));
        assert(sp.update(sp.len() - 1, sp.last().push(s.last())) =~= split_lines(x).push(
            l.drop_last().push(l.last()),
        ));
        assert(l.drop_last().push(l.last()) =~= l);
    }
}

/// Splitting the join of newline-free lines gives the lines back.
pub proof fn lemma_split_join(ls: Seq<Seq<char>>)
    requires
        ls.len() >= 1,
        forall|j: int| 0 <= j < ls.len() ==> line_clean(#[trigger] ls[j]),
    ensures
        split_lines(join_lines(ls)) == ls,
    decreases ls.len(),
{
    if ls.len() == 1 {
        lemma_split_single_clean_line(ls[0]);
        assert(join_lines(ls) == ls[0]);
        assert(seq![ls[0]] =~= ls);
    } else {
        lemma_split_join(ls.drop_last());
        lemma_split_append_line(join_lines(ls.drop_last()), ls.last());
        assert(split_lines(join_lines(ls)) == ls.drop_last().push(ls.last()));
        assert(ls.drop_last().push(ls.last()) =~= ls);
    }
}

/// The views of a vector of lines.
pub open spec fn lines_view(ls: Seq<Vec<char>>) -> Seq<Seq<char>> {
    ls.map_values(|l: Vec<char>| l@)
}

/// Splits `s` at newline characters into editable lines.
pub fn split_lines_exec(s: &str) -> (r: Vec<Vec<char>>)
    ensures
        lines_view(r@) == split_lines(s@),
{
    let n = s.unicode_len();
    let mut out: Vec<Vec<char>> = Vec::new();
    let mut cur: Vec<char> = Vec::new();
    let mut i: usize = 0;
    proof {
        assert(s@.take(0) =~= Seq::<char>::empty());
        assert(lines_view(out@).push(cur@) =~= split_lines(s@.take(0)));
    }
    while i < n
        invariant
            i <= n,
            n == s@.len(),
            lines_view(out@).push(cur@) =~= split_lines(s@.take(i as int)),
        decreases n - i,
    {
        let c = s.get_char(i);
        let ghost prefix = s@.take(i as int);
        let ghost out_old = out@;
        let ghost cur_old = cur@;
        proof {
            assert(s@.take(i as int + 1).drop_last() =~= prefix);
            assert(s@.take(i as int + 1).last() == c);
        }
        if c == '\n' {
            out.push(cur);
            cur = Vec::new();
            proof {
                assert(lines_view(out@) =~= lines_view(out_old).push(cur_old));
                assert(split_lines(s@.take(i as int + 1)) == split_lines(prefix).push(
                    Seq::<char>::empty(),
                ));
                assert(lines_view(out@).push(cur@) =~= split_lines(s@.take(i as int + 1)));
            }
        } else {
            cur.push(c);
            proof {
                let sp = split_lines(prefix);
                lemma_split_lines_len(prefix);
                assert(split_lines(s@.take(i as int + 1)) == sp.update(
                    sp.len() - 1,
                    sp.last().push(c),
                ));
                assert(sp.last() == cur_old);
                assert(sp.update(sp.len() - 1, cur_old.push(c)) =~= lines_view(out@).push(cur@));
            }
        }
        i = i + 1;
    }
    proof {
        assert(s@.take(n as int) =~= s@);
    }
    out.push(cur);
    proof {
        assert(lines_view(out@) =~= split_lines(s@));
    }
    out
}

/// Joins the lines back into one text with newlines between them.
pub fn join_lines_exec(lines: &Vec<Vec<char>>) -> (r: String)
    requires
        lines@.len() >= 1,
    ensures
        r@ == join_lines(lines_view(lines@)),
{
    let mut s = String::new();
    let ghost whole = lines_view(lines@);
    let mut j: usize = 0;
    proof {
        assert(whole.take(0) =~= Seq::<Seq<char>>::empty());
    }
    while j < lines.len()
        invariant
            j <= lines@.len(),
            whole == lines_view(lines@),
            whole.len() == lines@.len(),
            s@ =~= join_lines(whole.take(j as int)),
        decreases lines@.len() - j,
    {
        let ghost s_entry = s@;
        if j > 0 {
            string_push(&mut s, '\n');
        }
        let mut k: usize = 0;
        let line = &lines[j];
        while k < line.len()
            invariant
                k <= line@.len(),
                line@ == lines@[j as int]@,
                j < lines@.len(),
                s@ =~= if j == 0 {
                    s_entry + line@.take(k as int)
                } else {
                    s_entry + seq!['\n'] + line@.take(k as int)
                },
            decreases line@.len() - k,
        {
            string_push(&mut s, line[k]);
            proof {
                assert(line@.take(k as int + 1) =~= line@.take(k as int).push(line@[k as int]));
            }
            k = k + 1;
        }
        proof {
            assert(line@.take(line@.len() as int) =~= line@);
            let t = whole.take(j as int + 1);
            assert(t.drop_last() =~= whole.take(j as int));
            assert(t.last() == whole[j as int]);
            assert(whole[j as int] == line@);
            if j == 0 {
                assert(t.len() == 1);
                assert(join_lines(t) == t[0]);
                assert(s@ =~= join_lines(t));
            } else {
                assert(t.len() >= 2);
                assert(join_lines(t) == join_lines(whole.take(j as int)) + seq!['\n'] + line@);
                assert(s@ =~= join_lines(t));
            }
        }
        j = j + 1;
    }
    proof {
        assert(whole.take(lines@.len() as int) =~= whole);
    }
    s
}

} // verus!
