//! The blank-line stripper.
//!
//! Renderer output is embedded as raw HTML inside a markdown document. A
//! line that is empty or consists solely of whitespace would end the
//! surrounding inline-HTML region and let the markdown parser resume
//! normal processing in the middle of the markup, so every such line is
//! removed before the output is emitted. Whitespace here means space,
//! tab and carriage return.

use vstd::prelude::*;
use vstd::string::StrSliceExecFns;
use crate::strutil::push_str;

verus! {

/// A whitespace character for the purpose of blank-line detection.
pub open spec fn is_ws_char(c: char) -> bool {
    c == ' ' || c == '\t' || c == '\r'
}

/// A line that is empty or consists solely of whitespace.
pub open spec fn blank_line(l: Seq<char>) -> bool {
    forall|i: int| 0 <= i < l.len() ==> is_ws_char(#[trigger] l[i])
}

/// A line that contains no newline character.
pub open spec fn no_nl(l: Seq<char>) -> bool {
    forall|i: int| 0 <= i < l.len() ==> #[trigger] l[i] != '\n'
}

/// The text split at newline characters. The result always holds at least
/// one line; a trailing newline yields a final empty line.
pub open spec fn split_lines(s: Seq<char>) -> Seq<Seq<char>>
    decreases s.len(),
{
    if s.len() == 0 {
        seq![Seq::<char>::empty()]
    } else if s.last() == '\n' {
        split_lines(s.drop_last()).push(Seq::<char>::empty())
    } else {
        let r = split_lines(s.drop_last());
        r.update(r.len() - 1, r.last().push(s.last()))
    }
}

/// The lines that survive sanitization: everything but blank lines.
pub open spec fn keep_lines(ls: Seq<Seq<char>>) -> Seq<Seq<char>>
    decreases ls.len(),
{
    if ls.len() == 0 {
        Seq::<Seq<char>>::empty()
    } else if blank_line(ls.last()) {
        keep_lines(ls.drop_last())
    } else {
        keep_lines(ls.drop_last()).push(ls.last())
    }
}

/// Lines joined back together with single newlines.
pub open spec fn join_lines(ls: Seq<Seq<char>>) -> Seq<char>
    decreases ls.len(),
{
    if ls.len() == 0 {
        Seq::<char>::empty()
    } else if ls.len() == 1 {
        ls[0]
    } else {
        join_lines(ls.drop_last()) + seq!['\n'] + ls.last()
    }
}

/// The sanitized form of a text: its non-blank lines, joined by newlines.
pub open spec fn spec_sanitize(s: Seq<char>) -> Seq<char> {
    join_lines(keep_lines(split_lines(s)))
}

/// `split_lines` never returns an empty sequence of lines.
pub proof fn lemma_split_lines_len(s: Seq<char>)
    ensures
        split_lines(s).len() >= 1,
    decreases s.len(),
{
    if s.len() == 0 {
    } else {
        lemma_split_lines_len(s.drop_last());
    }
}

/// Every line of `ls` is free of newline characters.
pub open spec fn all_no_nl(ls: Seq<Seq<char>>) -> bool {
    forall|k: int| 0 <= k < ls.len() ==> no_nl(#[trigger] ls[k])
}

/// No line of `ls` is blank.
pub open spec fn all_nonblank(ls: Seq<Seq<char>>) -> bool {
    forall|k: int| 0 <= k < ls.len() ==> !blank_line(#[trigger] ls[k])
}

/// Splitting never produces a line that contains a newline.
proof fn lemma_split_no_nl(s: Seq<char>)
    ensures
        all_no_nl(split_lines(s)),
    decreases s.len(),
{
    if s.len() == 0 {
    } else {
        lemma_split_no_nl(s.drop_last());
        lemma_split_lines_len(s.drop_last());
        if s.last() == '\n' {
        } else {
            let r = split_lines(s.drop_last());
            let l = r.last().push(s.last());
            assert(no_nl(l)) by {
                assert(forall|i: int|
                    0 <= i < l.len() - 1 ==> #[trigger] l[i] == r.last()[i]);
            }
        }
    }
}

/// Kept lines are never blank.
proof fn lemma_keep_nonblank(ls: Seq<Seq<char>>)
    ensures
        all_nonblank(keep_lines(ls)),
    decreases ls.len(),
{
    if ls.len() == 0 {
    } else {
        lemma_keep_nonblank(ls.drop_last());
    }
}

/// Keeping preserves freedom from newlines.
proof fn lemma_keep_no_nl(ls: Seq<Seq<char>>)
    requires
        all_no_nl(ls),
    ensures
        all_no_nl(keep_lines(ls)),
    decreases ls.len(),
{
    if ls.len() == 0 {
    } else {
        assert(all_no_nl(ls.drop_last()));
        lemma_keep_no_nl(ls.drop_last());
    }
}

/// Keeping is the identity on line sequences with no blank line.
proof fn lemma_keep_all_nonblank(ls: Seq<Seq<char>>)
    requires
        all_nonblank(ls),
    ensures
        keep_lines(ls) == ls,
    decreases ls.len(),
{
    if ls.len() == 0 {
        assert(keep_lines(ls) =~= ls);
    } else {
        assert(all_nonblank(ls.drop_last()));
        lemma_keep_all_nonblank(ls.drop_last());
        assert(keep_lines(ls) =~= ls);
    }
}

/// A newline-free text splits into exactly itself.
proof fn lemma_split_single(l: Seq<char>)
    requires
        no_nl(l),
    ensures
        split_lines(l) == seq![l],
    decreases l.len(),
{
    if l.len() == 0 {
        assert(l =~= Seq::<char>::empty());
        assert(split_lines(l) =~= seq![l]);
    } else {
        assert(no_nl(l.drop_last()));
        lemma_split_single(l.drop_last());
        assert(l.last() != '\n');
        assert(split_lines(l) =~= seq![l.drop_last().push(l.last())]);
        assert(l.drop_last().push(l.last()) =~= l);
    }
}

/// Appending a newline-free text extends the final line of the split.
proof fn lemma_split_append_line(y: Seq<char>, l: Seq<char>)
    requires
        no_nl(l),
    ensures
        split_lines(y + l) == split_lines(y).update(
            split_lines(y).len() - 1,
            split_lines(y).last() + l,
        ),
    decreases l.len(),
{
    lemma_split_lines_len(y);
    if l.len() == 0 {
        assert(y + l =~= y);
        assert(split_lines(y).last() + l =~= split_lines(y).last());
        assert(split_lines(y).update(split_lines(y).len() - 1, split_lines(y).last())
            =~= split_lines(y));
    } else {
        assert(no_nl(l.drop_last()));
        lemma_split_append_line(y, l.drop_last());
        let r = split_lines(y);
        let mid = r.update(r.len() - 1, r.last() + l.drop_last());
        assert((y + l).drop_last() =~= y + l.drop_last());
        assert((y + l).last() == l.last());
        assert(l.last() != '\n');
        assert(split_lines(y + l) =~= mid.update(mid.len() - 1, mid.last().push(l.last())));
        assert((r.last() + l.drop_last()).push(l.last()) =~= r.last() + l);
        assert(mid.update(mid.len() - 1, mid.last().push(l.last())) =~= r.update(
            r.len() - 1,
            r.last() + l,
        ));
    }
}

/// Splitting inverts joining on non-empty sequences of newline-free lines.
proof fn lemma_split_join(ls: Seq<Seq<char>>)
    requires
        ls.len() >= 1,
        all_no_nl(ls),
    ensures
        split_lines(join_lines(ls)) == ls,
    decreases ls.len(),
{
    if ls.len() == 1 {
        lemma_split_single(ls[0]);
        assert(seq![ls[0]] =~= ls);
    } else {
        assert(all_no_nl(ls.drop_last()));
        lemma_split_join(ls.drop_last());
        let y = join_lines(ls.drop_last());
        assert(join_lines(ls) == y + seq!['\n'] + ls.last());
        assert(split_lines(y + seq!['\n']) =~= split_lines(y).push(Seq::<char>::empty())) by {
            assert((y + seq!['\n']).last() == '\n');
            assert((y + seq!['\n']).drop_last() =~= y);
        }
        lemma_split_append_line(y + seq!['\n'], ls.last());
        let r = split_lines(y + seq!['\n']);
        assert(y + seq!['\n'] + ls.last() =~= (y + seq!['\n']) + ls.last());
        assert(r.last() + ls.last() =~= ls.last());
        assert(r.update(r.len() - 1, ls.last()) =~= ls.drop_last().push(Seq::<char>::empty())
            .update(ls.len() - 1, ls.last()));
        assert(ls.drop_last().push(Seq::<char>::empty()).update(ls.len() - 1, ls.last())
            =~= ls);
    }
}

/// Sanitization is idempotent: stripping blank lines from
/// already-stripped output changes nothing.
pub proof fn lemma_sanitize_idempotent(s: Seq<char>)
    ensures
        spec_sanitize(spec_sanitize(s)) == spec_sanitize(s),
{
    let kept = keep_lines(split_lines(s));
    let t = join_lines(kept);
    lemma_split_no_nl(s);
    lemma_keep_no_nl(split_lines(s));
    lemma_keep_nonblank(split_lines(s));
    if kept.len() == 0 {
        let e = Seq::<char>::empty();
        assert(t =~= e);
        assert(split_lines(t) =~= seq![e]);
        assert(seq![e].last() == e);
        assert(blank_line(e));
        assert(seq![e].drop_last() =~= Seq::<Seq<char>>::empty());
        assert(keep_lines(Seq::<Seq<char>>::empty()) =~= Seq::<Seq<char>>::empty());
        assert(keep_lines(seq![e]) == keep_lines(seq![e].drop_last()));
        assert(keep_lines(split_lines(t)) =~= Seq::<Seq<char>>::empty());
    } else {
        lemma_split_join(kept);
        lemma_keep_all_nonblank(kept);
    }
}

/// Whether the character at position `i` is whitespace.
fn is_ws(c: char) -> (r: bool)
    ensures
        r == is_ws_char(c),
{
    c == ' ' || c == '\t' || c == '\r'
}

/// Whether the segment `[from, to)` of `s` is a blank line.
fn seg_blank(s: &str, from: usize, to: usize) -> (r: bool)
    requires
        from <= to <= s@.len(),
    ensures
        r == blank_line(s@.subrange(from as int, to as int)),
{
    let ghost seg = s@.subrange(from as int, to as int);
    let mut j: usize = from;
    while j < to
        invariant
            from <= j <= to <= s@.len(),
            seg == s@.subrange(from as int, to as int),
            forall|k: int| 0 <= k < j - from ==> is_ws_char(#[trigger] seg[k]),
        decreases to - j,
    {
        if !is_ws(s.get_char(j)) {
            assert(seg[j - from] == s@[j as int]);
            return false;
        }
        assert(seg[j - from] == s@[j as int]);
        j = j + 1;
    }
    true
}

/// Removes every line of `s` that is empty or consists solely of
/// whitespace, keeping the others in order, joined by single newlines.
pub fn sanitize(s: &str) -> (r: String)
    ensures
        r@ == spec_sanitize(s@),
{
    let n = s.unicode_len();
    let mut out = String::new();
    let mut has: bool = false;
    let mut ls: usize = 0;
    let mut i: usize = 0;
    while i < n
        invariant
            n == s@.len(),
            ls <= i <= n,
            split_lines(s@.take(i as int)).len() >= 1,
            split_lines(s@.take(i as int)).last() == s@.subrange(ls as int, i as int),
            out@ == join_lines(keep_lines(split_lines(s@.take(i as int)).drop_last())),
            has == (keep_lines(split_lines(s@.take(i as int)).drop_last()).len() > 0),
        decreases n - i,
    {
        let ghost t_old = s@.take(i as int);
        let ghost a_old = split_lines(t_old).drop_last();
        let ghost line = s@.subrange(ls as int, i as int);
        let c = s.get_char(i);
        proof {
            assert(s@.take(i + 1) =~= t_old.push(s@[i as int]));
            assert(s@.take(i + 1).drop_last() =~= t_old);
            lemma_split_lines_len(t_old);
            assert(split_lines(t_old) =~= a_old.push(line));
        }
        if c == '\n' {
            proof {
                // the new split is the old one with a fresh empty line
                assert(split_lines(s@.take(i + 1)) =~= split_lines(t_old).push(
                    Seq::<char>::empty()));
                assert(split_lines(s@.take(i + 1)).drop_last() =~= split_lines(t_old));
            }
            if !seg_blank(s, ls, i) {
                if has {
                    push_str(&mut out, "\n");
                    proof {
                        reveal_strlit("\n");
                    }
                }
                let piece = s.substring_char(ls, i);
                push_str(&mut out, piece);
                has = true;
                proof {
                    assert(keep_lines(split_lines(t_old)) =~= keep_lines(a_old).push(line));
                    assert(keep_lines(a_old).push(line).drop_last() =~= keep_lines(a_old));
                    if keep_lines(a_old).len() == 0 {
                        assert(out@ =~= join_lines(keep_lines(split_lines(t_old))));
                    } else {
                        assert(out@ =~= join_lines(keep_lines(split_lines(t_old))));
                    }
                }
            } else {
                proof {
                    assert(keep_lines(split_lines(t_old)) =~= keep_lines(a_old));
                }
            }
            ls = i + 1;
            proof {
                assert(split_lines(s@.take(i + 1)).last() =~= s@.subrange(i + 1, i + 1));
            }
        } else {
            proof {
                let r = split_lines(t_old);
                assert(split_lines(s@.take(i + 1)) =~= r.update(r.len() - 1, r.last().push(
                    s@[i as int])));
                assert(split_lines(s@.take(i + 1)).drop_last() =~= a_old);
                assert(line.push(s@[i as int]) =~= s@.subrange(ls as int, i + 1));
            }
        }
        i = i + 1;
    }
    let ghost a = split_lines(s@).drop_last();
    let ghost line = s@.subrange(ls as int, n as int);
    proof {
        assert(s@.take(n as int) =~= s@);
        lemma_split_lines_len(s@);
        assert(split_lines(s@) =~= a.push(line));
    }
    if !seg_blank(s, ls, n) {
        if has {
            push_str(&mut out, "\n");
            proof {
                reveal_strlit("\n");
            }
        }
        let piece = s.substring_char(ls, n);
        push_str(&mut out, piece);
        proof {
            assert(keep_lines(split_lines(s@)) =~= keep_lines(a).push(line));
            assert(keep_lines(a).push(line).drop_last() =~= keep_lines(a));
            assert(out@ =~= join_lines(keep_lines(split_lines(s@))));
        }
    } else {
        proof {
            assert(keep_lines(split_lines(s@)) =~= keep_lines(a));
        }
    }
    out
}

} // verus!
