//! Line-level text manipulation: splitting a document into lines the way
//! `str::lines` does, joining lines back with a terminating newline each,
//! and dropping the document's second line.
use vstd::prelude::*;
use vstd::string::StrSliceExecFns;
use vstd::string::StringExecFns;

verus! {

/// Index of the first `'\n'` in `s`, or `s.len()` if there is none.
pub open spec fn first_nl(s: Seq<char>) -> nat
    decreases s.len(),
{
    if s.len() == 0 {
        0
    } else if s[0] == '\n' {
        0
    } else {
        1 + first_nl(s.skip(1))
    }
}

/// A line with its terminator removed: a trailing `'\r'` is dropped, as
/// `str::lines` drops it from a line that ended in `"\r\n"`.
pub open spec fn chomp_cr(l: Seq<char>) -> Seq<char> {
    if l.len() > 0 && l.last() == '\r' {
        l.drop_last()
    } else {
        l
    }
}

/// The lines of `s`, split as `str::lines` splits them: at every `'\n'`,
/// with a `'\r'` just before the `'\n'` removed, and with no empty final
/// line when the text ends in a newline.
pub open spec fn lines_of(s: Seq<char>) -> Seq<Seq<char>>
    decreases s.len(),
{
    if s.len() == 0 {
        Seq::empty()
    } else {
        let i = first_nl(s);
        if i >= s.len() {
            seq![s]
        } else {
            seq![chomp_cr(s.take(i as int))] + lines_of(s.skip(i as int + 1))
        }
    }
}

/// The lines joined back into one text, every line followed by `'\n'`.
pub open spec fn join_lines(ls: Seq<Seq<char>>) -> Seq<char>
    decreases ls.len(),
{
    if ls.len() == 0 {
        Seq::empty()
    } else {
        ls[0] + seq!['\n'] + join_lines(ls.skip(1))
    }
}

/// A line as `lines_of` produces it: free of `'\n'` and not ending in `'\r'`.
pub open spec fn clean_line(l: Seq<char>) -> bool {
    (forall|i: int| 0 <= i < l.len() ==> #[trigger] l[i] != '\n') && (l.len() > 0 ==> l.last()
        != '\r')
}

pub open spec fn all_clean(ls: Seq<Seq<char>>) -> bool {
    forall|k: int| 0 <= k < ls.len() ==> clean_line(#[trigger] ls[k])
}

proof fn lemma_first_nl_props(s: Seq<char>)
    ensures
        first_nl(s) <= s.len(),
        first_nl(s) < s.len() ==> s[first_nl(s) as int] == '\n',
        forall|j: int| 0 <= j < first_nl(s) ==> #[trigger] s[j] != '\n',
    decreases s.len(),
{
    if s.len() == 0 {
    } else if s[0] == '\n' {
    } else {
        lemma_first_nl_props(s.skip(1));
        assert forall|j: int| 0 <= j < first_nl(s) implies #[trigger] s[j] != '\n' by {
            if j > 0 {
                assert(s.skip(1)[j - 1] == s[j]);
            }
        }
    }
}

/// `first_nl` is pinned down by exhibiting a `'\n'` with none before it.
proof fn lemma_first_nl_unique(s: Seq<char>, i: int)
    requires
        0 <= i < s.len(),
        s[i] == '\n',
        forall|j: int| 0 <= j < i ==> #[trigger] s[j] != '\n',
    ensures
        first_nl(s) == i,
{
    lemma_first_nl_props(s);
    if first_nl(s) < i {
        assert(s[first_nl(s) as int] == '\n');
    } else if first_nl(s) > i {
        assert(s[i] != '\n');
    }
}

/// `first_nl` of a text with no `'\n'` at all is its length.
proof fn lemma_first_nl_none(s: Seq<char>)
    requires
        forall|j: int| 0 <= j < s.len() ==> #[trigger] s[j] != '\n',
    ensures
        first_nl(s) == s.len(),
{
    lemma_first_nl_props(s);
    if first_nl(s) < s.len() {
        assert(s[first_nl(s) as int] == '\n');
    }
}

/// Splitting off the first line: a text that starts with a newline-free,
/// `'\r'`-free line followed by `'\n'` has that line first, then the lines
/// of the rest.
pub proof fn lemma_lines_unfold(l: Seq<char>, rest: Seq<char>)
    requires
        clean_line(l),
    ensures
        lines_of(l + seq!['\n'] + rest) == seq![l] + lines_of(rest),
{
    let s = l + seq!['\n'] + rest;
    assert(s[l.len() as int] == '\n');
    assert forall|j: int| 0 <= j < l.len() implies #[trigger] s[j] != '\n' by {
        assert(s[j] == l[j]);
    }
    lemma_first_nl_unique(s, l.len() as int);
    assert(s.take(l.len() as int) =~= l);
    assert(chomp_cr(l) == l);
    assert(s.skip(l.len() as int + 1) =~= rest);
    assert(lines_of(s) =~= seq![l] + lines_of(rest));
}

/// Joining clean lines and splitting again gives the lines back: `lines_of`
/// is a left inverse of `join_lines` on clean lines.
pub proof fn lemma_lines_of_join(ls: Seq<Seq<char>>)
    requires
        all_clean(ls),
    ensures
        lines_of(join_lines(ls)) == ls,
    decreases ls.len(),
{
    if ls.len() == 0 {
    } else {
        lemma_lines_unfold(ls[0], join_lines(ls.skip(1)));
        assert(ls[0] + seq!['\n'] + join_lines(ls.skip(1)) == join_lines(ls));
        lemma_lines_of_join(ls.skip(1));
        assert(seq![ls[0]] + ls.skip(1) =~= ls);
    }
}

/// Joining one more line appends it and a newline to the joined text.
pub proof fn lemma_join_push(ls: Seq<Seq<char>>, l: Seq<char>)
    ensures
        join_lines(ls.push(l)) == join_lines(ls) + l + seq!['\n'],
    decreases ls.len(),
{
    let p = ls.push(l);
    assert(join_lines(p) == p[0] + seq!['\n'] + join_lines(p.skip(1)));
    if ls.len() == 0 {
        assert(p[0] == l);
        assert(p.skip(1) =~= Seq::<Seq<char>>::empty());
        assert(join_lines(p) =~= join_lines(ls) + l + seq!['\n']);
    } else {
        assert(p[0] == ls[0]);
        assert(p.skip(1) =~= ls.skip(1).push(l));
        lemma_join_push(ls.skip(1), l);
        assert(join_lines(p) =~= join_lines(ls) + l + seq!['\n']);
    }
}

/// The lines of a document with its second line dropped; a document of
/// fewer than two lines is kept whole.
pub open spec fn without_second(ls: Seq<Seq<char>>) -> Seq<Seq<char>> {
    if ls.len() >= 2 {
        ls.remove(1)
    } else {
        ls
    }
}

/// The document after the second-line strip: split into lines, drop the
/// line at index 1, join back with a newline after every line.
pub open spec fn stripped_of(s: Seq<char>) -> Seq<char> {
    join_lines(without_second(lines_of(s)))
}

/// Splits `s` into its lines, as `str::lines` does.
pub fn split_lines(s: &str) -> (v: Vec<String>)
    ensures
        v@.map_values(|l: String| l@) == lines_of(s@),
{
    let n = s.unicode_len();
    let mut v: Vec<String> = Vec::new();
    let mut start: usize = 0;
    let mut i: usize = 0;
    proof {
        assert(s@.skip(0) =~= s@);
        assert(v@.map_values(|l: String| l@) =~= Seq::<Seq<char>>::empty());
    }
    while i < n
        invariant
            n == s@.len(),
            start <= i <= n,
            lines_of(s@) == v@.map_values(|l: String| l@) + lines_of(s@.skip(start as int)),
            forall|j: int| start <= j < i ==> #[trigger] s@[j] != '\n',
        decreases n - i,
    {
        if s.get_char(i) == '\n' {
            let end = if i > start && s.get_char(i - 1) == '\r' {
                i - 1
            } else {
                i
            };
            let piece = s.substring_char(start, end).to_owned();
            proof {
                let tail = s@.skip(start as int);
                assert forall|j: int| 0 <= j < i - start implies #[trigger] tail[j] != '\n' by {
                    assert(tail[j] == s@[start + j]);
                }
                assert(tail[i - start] == s@[i as int]);
                lemma_first_nl_unique(tail, i - start);
                assert(chomp_cr(tail.take(i - start)) =~= piece@) by {
                    assert(forall|j: int|
                        0 <= j < i - start ==> #[trigger] tail.take(i - start)[j] == s@[start + j]);
                    if i > start && s@[i - 1] == '\r' {
                        assert(tail.take(i - start).last() == '\r');
                        assert(tail.take(i - start).drop_last() =~= s@.subrange(
                            start as int,
                            i - 1,
                        ));
                    } else {
                        if tail.take(i - start).len() > 0 {
                            assert(tail.take(i - start).last() == s@[i - 1]);
                        }
                        assert(tail.take(i - start) =~= s@.subrange(start as int, i as int));
                    }
                }
                assert(tail.skip(i - start + 1) =~= s@.skip(i + 1));
                assert(lines_of(tail) == seq![piece@] + lines_of(s@.skip(i + 1)));
                let old_map = v@.map_values(|l: String| l@);
                assert(v@.push(piece).map_values(|l: String| l@) =~= old_map.push(piece@));
                assert(old_map + seq![piece@] + lines_of(s@.skip(i + 1)) =~= old_map.push(piece@)
                    + lines_of(s@.skip(i + 1)));
            }
            v.push(piece);
            start = i + 1;
        }
        i += 1;
    }
    if start < n {
        let piece = s.substring_char(start, n).to_owned();
        proof {
            let tail = s@.skip(start as int);
            assert forall|j: int| 0 <= j < tail.len() implies #[trigger] tail[j] != '\n' by {
                assert(tail[j] == s@[start + j]);
            }
            lemma_first_nl_none(tail);
            assert(tail =~= piece@);
            assert(lines_of(tail) == seq![piece@]);
            let old_map = v@.map_values(|l: String| l@);
            assert(v@.push(piece).map_values(|l: String| l@) =~= old_map.push(piece@));
            assert(old_map + seq![piece@] =~= old_map.push(piece@));
        }
        v.push(piece);
    } else {
        proof {
            assert(s@.skip(start as int) =~= Seq::<char>::empty());
        }
    }
    v
}

/// Joins the given lines back into one text, a newline after every line,
/// leaving out the line at index 1, as the playlist workaround requires.
pub fn join_lines_without_second(v: &Vec<String>) -> (r: String)
    ensures
        r@ == join_lines(without_second(v@.map_values(|l: String| l@))),
{
    let ghost ls = v@.map_values(|l: String| l@);
    let mut r = String::new();
    proof {
        reveal_strlit("\n");
    }
    let mut i: usize = 0;
    while i < v.len()
        invariant
            ls == v@.map_values(|l: String| l@),
            i <= v.len(),
            r@ == join_lines(without_second(ls.take(i as int))),
        decreases v.len() - i,
    {
        if i != 1 {
            r.append(v[i].as_str());
            r.append("\n");
        }
        proof {
            reveal_strlit("\n");
            assert("\n"@ =~= seq!['\n']);
            let prev = ls.take(i as int);
            let now = ls.take(i + 1);
            assert(now =~= prev.push(ls[i as int]));
            if i == 1 {
                assert(without_second(now) =~= without_second(prev));
                assert(r@ == join_lines(without_second(now)));
            } else if i == 0 {
                assert(without_second(now) =~= Seq::<Seq<char>>::empty().push(ls[0]));
                lemma_join_push(Seq::<Seq<char>>::empty(), ls[0]);
                assert(r@ =~= join_lines(without_second(now)));
            } else {
                assert(without_second(now) =~= without_second(prev).push(ls[i as int]));
                lemma_join_push(without_second(prev), ls[i as int]);
                assert(r@ =~= join_lines(without_second(now)));
            }
        }
        i += 1;
    }
    proof {
        assert(ls.take(v.len() as int) =~= ls);
    }
    r
}

/// Renders the document minus its second line: the composition of
/// [`split_lines`] and [`join_lines_without_second`].
pub fn strip_second_line(s: &str) -> (r: String)
    ensures
        r@ == stripped_of(s@),
{
    let v = split_lines(s);
    join_lines_without_second(&v)
}

} // verus!
