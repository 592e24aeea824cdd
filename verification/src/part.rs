use vstd::prelude::*;

use crate::error::Error;
use crate::text::{
    chars_of, join, join_strings, lemma_split_on_concat,
    lemma_split_on_pieces, lemma_split_on_single, lemma_split_on_step, lemma_trim_clean,
    split_bounds, split_on, split_str, substring, trim, trim_bounds,
};

verus! {

/// Completed parts so far, and the lines of the part being read.
pub type Grouping = (Seq<Seq<Seq<char>>>, Seq<Seq<char>>);

/// Reads one more line: an empty line ends the current part, if there is one;
/// any other line belongs to it.
pub open spec fn group_step(st: Grouping, line: Seq<char>) -> Grouping {
    if line.len() == 0 {
        if st.1.len() > 0 {
            (st.0.push(st.1), Seq::<Seq<char>>::empty())
        } else {
            st
        }
    } else {
        (st.0, st.1.push(line))
    }
}

/// The grouping after reading `lines` from the start.
pub open spec fn group_lines(lines: Seq<Seq<char>>) -> Grouping
    decreases lines.len(),
{
    if lines.len() == 0 {
        (Seq::<Seq<Seq<char>>>::empty(), Seq::<Seq<char>>::empty())
    } else {
        group_step(group_lines(lines.drop_last()), lines.last())
    }
}

/// All parts once the input has ended.
pub open spec fn close_group(st: Grouping) -> Seq<Seq<Seq<char>>> {
    if st.1.len() > 0 {
        st.0.push(st.1)
    } else {
        st.0
    }
}

/// The maximal runs of non-empty lines.
pub open spec fn paragraphs(lines: Seq<Seq<char>>) -> Seq<Seq<Seq<char>>> {
    close_group(group_lines(lines))
}

/// Each line trimmed.
pub open spec fn trim_all(lines: Seq<Seq<char>>) -> Seq<Seq<char>> {
    lines.map_values(|l: Seq<char>| trim(l))
}

/// The parts of a lyric text: its lines, trimmed, in runs of non-empty lines.
pub open spec fn text_parts(s: Seq<char>) -> Seq<Seq<Seq<char>>> {
    paragraphs(trim_all(split_on(s, '\n')))
}

/// The text of a lyric's parts: the lines of a part joined by a line break,
/// the parts joined by an empty line.
pub open spec fn parts_text(parts: Seq<Seq<Seq<char>>>) -> Seq<char> {
    join(
        parts.map_values(|p: Seq<Seq<char>>| join(p, seq!['\n'])),
        seq!['\n', '\n'],
    )
}

/// The delimiter of a front matter block.
pub open spec fn delimiter() -> Seq<char> {
    seq!['+', '+', '+', '\n']
}

proof fn lemma_group_trimmed_last(lines: Seq<Seq<char>>)
    requires
        lines.len() > 0,
    ensures
        group_lines(trim_all(lines)) == group_step(
            group_lines(trim_all(lines.drop_last())),
            trim(lines.last()),
        ),
{
    assert(trim_all(lines).drop_last() =~= trim_all(lines.drop_last()));
}

/// Feeds one trimmed line to the grouping held in `parts` and `cur`.
fn push_line(parts: &mut Vec<Vec<String>>, cur: &mut Vec<String>, line: String)
    ensures
        final(parts).deep_view() == group_step(
            (old(parts).deep_view(), old(cur).deep_view()),
            line@,
        ).0,
        final(cur).deep_view() == group_step((old(parts).deep_view(), old(cur).deep_view()), line@).1,
{
    if line.as_str().is_empty() {
        if cur.len() > 0 {
            let ghost old_parts = parts.deep_view();
            let mut done: Vec<String> = Vec::new();
            std::mem::swap(cur, &mut done);
            parts.push(done);
            assert(parts.deep_view() =~= old_parts.push(done.deep_view()));
            assert(cur.deep_view() =~= Seq::<Seq<char>>::empty());
        }
    } else {
        let ghost old_cur = cur.deep_view();
        cur.push(line);
        assert(cur.deep_view() =~= old_cur.push(line@));
    }
}

/// Splits a lyric text into parts: the lines, trimmed, grouped into runs of
/// non-empty lines; empty lines only separate parts.
pub fn to_parts(s: &str) -> (parts: Vec<Vec<String>>)
    ensures
        parts.deep_view() == text_parts(s@),
{
    let v = chars_of(s);
    let n = v.len();
    let mut parts: Vec<Vec<String>> = Vec::new();
    let mut cur: Vec<String> = Vec::new();
    let mut start: usize = 0;
    let mut i: usize = 0;
    proof {
        assert(v@.take(0) =~= Seq::<char>::empty());
        assert(split_on(v@.take(0), '\n').drop_last() =~= Seq::<Seq<char>>::empty());
        assert(trim_all(Seq::<Seq<char>>::empty()) =~= Seq::<Seq<char>>::empty());
        assert(parts.deep_view() =~= Seq::<Seq<Seq<char>>>::empty());
        assert(cur.deep_view() =~= Seq::<Seq<char>>::empty());
    }
    while i < n
        invariant
            n == v.len(),
            v@ == s@,
            start <= i <= n,
            split_on(v@.take(i as int), '\n').len() >= 1,
            split_on(v@.take(i as int), '\n').last() == v@.subrange(start as int, i as int),
            group_lines(trim_all(split_on(v@.take(i as int), '\n').drop_last())).0
                == parts.deep_view(),
            group_lines(trim_all(split_on(v@.take(i as int), '\n').drop_last())).1
                == cur.deep_view(),
        decreases n - i,
    {
        let ghost lines = split_on(v@.take(i as int), '\n');
        proof {
            lemma_split_on_step(v@, '\n', i as int);
        }
        if v[i] == '\n' {
            let (a, b) = trim_bounds(&v, start, i);
            let line = substring(s, a, b);
            push_line(&mut parts, &mut cur, line);
            proof {
                lemma_group_trimmed_last(lines);
                assert(split_on(v@.take(i + 1), '\n').drop_last() =~= lines);
                assert(v@.subrange(i + 1, i + 1) =~= Seq::<char>::empty());
            }
            start = i + 1;
        } else {
            proof {
                assert(split_on(v@.take(i + 1), '\n').drop_last() =~= lines.drop_last());
                assert(v@.subrange(start as int, i + 1) =~= v@.subrange(start as int, i as int).push(
                    v@[i as int],
                ));
            }
        }
        i = i + 1;
    }
    let ghost lines = split_on(v@.take(n as int), '\n');
    let (a, b) = trim_bounds(&v, start, n);
    let line = substring(s, a, b);
    push_line(&mut parts, &mut cur, line);
    proof {
        assert(v@.take(n as int) =~= s@);
        lemma_group_trimmed_last(lines);
    }
    if cur.len() > 0 {
        let ghost old_parts = parts.deep_view();
        parts.push(cur);
        assert(parts.deep_view() =~= old_parts.push(cur.deep_view()));
    }
    parts
}

/// Writes the parts of a lyric as text: the lines of a part joined by a line
/// break, the parts separated by an empty line.
pub fn to_text(parts: &[Vec<String>]) -> (r: String)
    ensures
        r@ == parts_text(parts.deep_view()),
{
    let ghost views = parts.deep_view();
    let mut texts: Vec<String> = Vec::new();
    let mut i: usize = 0;
    proof {
        reveal_strlit("\n");
        reveal_strlit("\n\n");
        assert("\n"@ =~= seq!['\n']);
        assert("\n\n"@ =~= seq!['\n', '\n']);
    }
    while i < parts.len()
        invariant
            i <= parts.len(),
            views == parts.deep_view(),
            "\n"@ == seq!['\n'],
            texts.deep_view() == views.take(i as int).map_values(
                |p: Seq<Seq<char>>| join(p, seq!['\n']),
            ),
        decreases parts.len() - i,
    {
        let t = join_strings(&parts[i], "\n");
        let ghost old_texts = texts.deep_view();
        texts.push(t);
        assert(texts.deep_view() =~= old_texts.push(t@));
        assert(views.take(i + 1).map_values(|p: Seq<Seq<char>>| join(p, seq!['\n']))
            =~= views.take(i as int).map_values(|p: Seq<Seq<char>>| join(p, seq!['\n'])).push(
            join(views[i as int], seq!['\n']),
        ));
        assert(views[i as int] == parts@[i as int].deep_view());
        i = i + 1;
    }
    assert(views.take(parts.len() as int) =~= views);
    join_strings(&texts, "\n\n")
}

/// Splits a document at its front matter delimiters `+++\n`: a document of
/// exactly three pieces gives its front matter and its body.
pub fn extract_delimited_frontmatter<'a>(content: &'a str) -> (r: Result<(&'a str, &'a str), Error>)
    ensures
        r is Ok <==> split_str(content@, delimiter()).len() == 3,
        r matches Ok((front, body)) ==> front@ == split_str(content@, delimiter())[1] && body@
            == split_str(content@, delimiter())[2],
        r matches Err(e) ==> e matches Error::NotFound(m) && m@.len() == 0,
{
    let v = chars_of(content);
    let pat = chars_of("+++\n");
    proof {
        reveal_strlit("+++\n");
        assert(pat@ =~= delimiter());
    }
    let bounds = split_bounds(&v, &pat);
    if bounds.len() == 3 {
        let (a1, b1) = bounds[1];
        let (a2, b2) = bounds[2];
        assert(bounds@[1].0 <= bounds@[1].1 <= v.len());
        assert(bounds@[2].0 <= bounds@[2].1 <= v.len());
        Ok((content.substring_char(a1, b1), content.substring_char(a2, b2)))
    } else {
        Err(Error::NotFound(String::new()))
    }
}


// ---------------------------------------------------------------------------
// Laws
// ---------------------------------------------------------------------------

/// A line as the parts of a lyric hold it: not empty, on one line, trimmed.
pub open spec fn is_clean_line(l: Seq<char>) -> bool {
    l.len() > 0 && !l.contains('\n') && trim(l) == l
}

/// Parts as `to_parts` gives them: no part is empty and every line is clean.
pub open spec fn well_formed_parts(p: Seq<Seq<Seq<char>>>) -> bool {
    forall|k: int|
        0 <= k < p.len() ==> (#[trigger] p[k]).len() > 0 && forall|j: int|
            0 <= j < p[k].len() ==> is_clean_line(#[trigger] p[k][j])
}

/// The lines of `parts_text(p)`: the lines of each part, with an empty line
/// between two parts.
spec fn part_lines(p: Seq<Seq<Seq<char>>>) -> Seq<Seq<char>>
    decreases p.len(),
{
    if p.len() == 0 {
        seq![Seq::<char>::empty()]
    } else if p.len() == 1 {
        p[0]
    } else {
        part_lines(p.drop_last()) + seq![Seq::<char>::empty()] + p.last()
    }
}

proof fn lemma_join_lines(ls: Seq<Seq<char>>)
    requires
        ls.len() >= 1,
        forall|j: int| 0 <= j < ls.len() ==> !(#[trigger] ls[j]).contains('\n'),
    ensures
        split_on(join(ls, seq!['\n']), '\n') == ls,
    decreases ls.len(),
{
    if ls.len() == 1 {
        lemma_split_on_single(ls[0], '\n');
        assert(seq![ls[0]] =~= ls);
    } else {
        let prev = ls.drop_last();
        assert forall|j: int| 0 <= j < prev.len() implies !(#[trigger] prev[j]).contains('\n') by {
            assert(prev[j] == ls[j]);
        }
        lemma_join_lines(prev);
        lemma_split_on_concat(join(prev, seq!['\n']), ls.last(), '\n');
        assert(!ls.last().contains('\n')) by {
            assert(ls.last() == ls[ls.len() - 1]);
        }
        lemma_split_on_single(ls.last(), '\n');
        assert(prev + seq![ls.last()] =~= ls);
    }
}

proof fn lemma_parts_text_step(p: Seq<Seq<Seq<char>>>)
    requires
        p.len() > 1,
    ensures
        parts_text(p) == parts_text(p.drop_last()) + seq!['\n', '\n'] + join(p.last(), seq!['\n']),
{
    let f = |q: Seq<Seq<char>>| join(q, seq!['\n']);
    assert(p.map_values(f).drop_last() =~= p.drop_last().map_values(f));
}

proof fn lemma_text_lines(p: Seq<Seq<Seq<char>>>)
    requires
        p.len() >= 1,
        well_formed_parts(p),
    ensures
        split_on(parts_text(p), '\n') == part_lines(p),
    decreases p.len(),
{
    if p.len() == 1 {
        assert(p[0].len() > 0);
        assert forall|j: int| 0 <= j < p[0].len() implies !(#[trigger] p[0][j]).contains('\n') by {
            assert(is_clean_line(p[0][j]));
        }
        lemma_join_lines(p[0]);
        let f = |q: Seq<Seq<char>>| join(q, seq!['\n']);
        assert(p.map_values(f) =~= seq![join(p[0], seq!['\n'])]);
    } else {
        let prev = p.drop_last();
        let q = p.last();
        assert(well_formed_parts(prev)) by {
            assert forall|k: int| 0 <= k < prev.len() implies (#[trigger] prev[k]).len() > 0
                && forall|j: int| 0 <= j < prev[k].len() ==> is_clean_line(#[trigger] prev[k][j]) by {
                assert(prev[k] == p[k]);
            }
        }
        lemma_text_lines(prev);
        lemma_parts_text_step(p);
        assert(q == p[p.len() - 1]);
        assert forall|j: int| 0 <= j < q.len() implies !(#[trigger] q[j]).contains('\n') by {
            assert(is_clean_line(p[p.len() - 1][j]));
        }
        lemma_join_lines(q);
        let a = parts_text(prev);
        let b = join(q, seq!['\n']);
        assert(a + seq!['\n', '\n'] + b =~= a + seq!['\n'] + (Seq::<char>::empty() + seq!['\n']
            + b));
        lemma_split_on_concat(a, Seq::<char>::empty() + seq!['\n'] + b, '\n');
        lemma_split_on_concat(Seq::<char>::empty(), b, '\n');
        assert(split_on(Seq::<char>::empty(), '\n') =~= seq![Seq::<char>::empty()]);
    }
}

proof fn lemma_trim_part_lines(p: Seq<Seq<Seq<char>>>)
    requires
        well_formed_parts(p),
    ensures
        trim_all(part_lines(p)) == part_lines(p),
    decreases p.len(),
{
    if p.len() == 0 {
        assert(trim(Seq::<char>::empty()) =~= Seq::<char>::empty());
        assert(trim_all(part_lines(p)) =~= part_lines(p));
    } else if p.len() == 1 {
        assert forall|j: int| 0 <= j < p[0].len() implies trim(#[trigger] p[0][j]) == p[0][j] by {
            assert(is_clean_line(p[0][j]));
        }
        assert(trim_all(part_lines(p)) =~= part_lines(p));
    } else {
        let prev = p.drop_last();
        let q = p.last();
        assert(well_formed_parts(prev)) by {
            assert forall|k: int| 0 <= k < prev.len() implies (#[trigger] prev[k]).len() > 0
                && forall|j: int| 0 <= j < prev[k].len() ==> is_clean_line(#[trigger] prev[k][j]) by {
                assert(prev[k] == p[k]);
            }
        }
        lemma_trim_part_lines(prev);
        assert(q == p[p.len() - 1]);
        assert forall|j: int| 0 <= j < q.len() implies trim(#[trigger] q[j]) == q[j] by {
            assert(is_clean_line(p[p.len() - 1][j]));
        }
        assert(trim(Seq::<char>::empty()) =~= Seq::<char>::empty());
        let pl = part_lines(prev);
        assert(trim_all(part_lines(p)) =~= trim_all(pl) + seq![Seq::<char>::empty()] + trim_all(q));
        assert(trim_all(q) =~= q);
    }
}

proof fn lemma_group_extend(x: Seq<Seq<char>>, ys: Seq<Seq<char>>)
    requires
        forall|j: int| 0 <= j < ys.len() ==> (#[trigger] ys[j]).len() > 0,
    ensures
        group_lines(x + ys) == (group_lines(x).0, group_lines(x).1 + ys),
    decreases ys.len(),
{
    if ys.len() == 0 {
        assert(x + ys =~= x);
        assert(group_lines(x).1 + ys =~= group_lines(x).1);
    } else {
        let prev = ys.drop_last();
        assert forall|j: int| 0 <= j < prev.len() implies (#[trigger] prev[j]).len() > 0 by {
            assert(prev[j] == ys[j]);
        }
        lemma_group_extend(x, prev);
        assert((x + ys).drop_last() =~= x + prev);
        assert((x + ys).last() == ys[ys.len() - 1]);
        assert((group_lines(x).1 + prev).push(ys.last()) =~= group_lines(x).1 + ys);
    }
}

proof fn lemma_group_part_lines(x: Seq<Seq<char>>, p: Seq<Seq<Seq<char>>>)
    requires
        p.len() >= 1,
        well_formed_parts(p),
        group_lines(x).1.len() == 0,
    ensures
        group_lines(x + part_lines(p)) == (group_lines(x).0 + p.drop_last(), p.last()),
    decreases p.len(),
{
    let d = group_lines(x).0;
    if p.len() == 1 {
        assert(p[0].len() > 0);
        assert forall|j: int| 0 <= j < p[0].len() implies (#[trigger] p[0][j]).len() > 0 by {
            assert(is_clean_line(p[0][j]));
        }
        lemma_group_extend(x, p[0]);
        assert(group_lines(x).1 + p[0] =~= p[0]);
        assert(d + p.drop_last() =~= d);
    } else {
        let prev = p.drop_last();
        let q = p.last();
        assert(well_formed_parts(prev)) by {
            assert forall|k: int| 0 <= k < prev.len() implies (#[trigger] prev[k]).len() > 0
                && forall|j: int| 0 <= j < prev[k].len() ==> is_clean_line(#[trigger] prev[k][j]) by {
                assert(prev[k] == p[k]);
            }
        }
        lemma_group_part_lines(x, prev);
        let y = x + part_lines(prev);
        let z = y.push(Seq::<char>::empty());
        assert(z.drop_last() =~= y);
        assert(prev.last() == p[prev.len() - 1]);
        assert(group_lines(z) == (d + prev.drop_last() + seq![prev.last()], Seq::<Seq<char>>::empty()));
        assert(d + prev.drop_last() + seq![prev.last()] =~= d + prev);
        assert(q == p[p.len() - 1]);
        assert forall|j: int| 0 <= j < q.len() implies (#[trigger] q[j]).len() > 0 by {
            assert(is_clean_line(p[p.len() - 1][j]));
        }
        lemma_group_extend(z, q);
        assert(x + part_lines(p) =~= z + q);
        assert(Seq::<Seq<char>>::empty() + q =~= q);
    }
}

/// Reading back what `to_text` wrote gives the same parts: for parts as
/// `to_parts` produces them (no empty part, every line non-empty, trimmed and
/// on one line), `to_parts(to_text(p)) == p`, also when the text is preceded
/// by one line break, as in a lyric document.
pub proof fn law_parts_roundtrip(p: Seq<Seq<Seq<char>>>)
    requires
        well_formed_parts(p),
    ensures
        text_parts(parts_text(p)) == p,
        text_parts(seq!['\n'] + parts_text(p)) == p,
{
    let e = Seq::<char>::empty();
    let es = Seq::<Seq<char>>::empty();
    assert(trim(e) =~= e);
    assert(seq!['\n'] + parts_text(p) =~= e + seq!['\n'] + parts_text(p));
    lemma_split_on_concat(e, parts_text(p), '\n');
    assert(split_on(e, '\n') =~= seq![e]);
    assert(group_lines(es) == (Seq::<Seq<Seq<char>>>::empty(), es));
    assert(seq![e].drop_last() =~= es);
    assert(group_lines(seq![e]) == (Seq::<Seq<Seq<char>>>::empty(), es));
    if p.len() == 0 {
        assert(parts_text(p) =~= e);
        assert(trim_all(seq![e]) =~= seq![e]);
        assert(seq![e] + seq![e] =~= seq![e, e]);
        assert(seq![e, e].drop_last() =~= seq![e]);
        assert(trim_all(seq![e, e]) =~= seq![e, e]);
        assert(p =~= Seq::<Seq<Seq<char>>>::empty());
    } else {
        lemma_text_lines(p);
        lemma_trim_part_lines(p);
        let lines = part_lines(p);
        assert(es + lines =~= lines);
        lemma_group_part_lines(es, p);
        assert(Seq::<Seq<Seq<char>>>::empty() + p.drop_last() =~= p.drop_last());
        assert(p[p.len() - 1].len() > 0);
        assert(p.drop_last().push(p.last()) =~= p);
        assert(trim_all(seq![e] + lines) =~= seq![e] + lines);
        lemma_group_part_lines(seq![e], p);
    }
}

/// The grouping holds only well-formed parts and clean lines.
spec fn good_grouping(st: Grouping) -> bool {
    &&& well_formed_parts(st.0)
    &&& forall|j: int| 0 <= j < st.1.len() ==> is_clean_line(#[trigger] st.1[j])
}

proof fn lemma_group_good(ls: Seq<Seq<char>>)
    requires
        forall|j: int| 0 <= j < ls.len() ==> !(#[trigger] ls[j]).contains('\n') && trim(ls[j]) == ls[j],
    ensures
        good_grouping(group_lines(ls)),
    decreases ls.len(),
{
    if ls.len() > 0 {
        let prev = ls.drop_last();
        assert forall|j: int| 0 <= j < prev.len() implies !(#[trigger] prev[j]).contains('\n') && trim(
            prev[j],
        ) == prev[j] by {
            assert(prev[j] == ls[j]);
        }
        lemma_group_good(prev);
        let st = group_lines(prev);
        let l = ls.last();
        assert(l == ls[ls.len() - 1]);
        if l.len() == 0 {
            if st.1.len() > 0 {
                let n = st.0.push(st.1);
                assert forall|k: int| 0 <= k < n.len() implies (#[trigger] n[k]).len() > 0 && forall|j: int|
                    0 <= j < n[k].len() ==> is_clean_line(#[trigger] n[k][j]) by {
                    if k < st.0.len() {
                        assert(n[k] == st.0[k]);
                    }
                }
            }
        } else {
            let c = st.1.push(l);
            assert forall|j: int| 0 <= j < c.len() implies is_clean_line(#[trigger] c[j]) by {
                if j < st.1.len() {
                    assert(c[j] == st.1[j]);
                }
            }
        }
    }
}

/// Whatever the text, `to_parts` gives well-formed parts: none is empty and
/// each line is non-empty, trimmed and on one line. Hence writing them with
/// `to_text` and reading them back gives them again.
pub proof fn law_parts_normal_form(s: Seq<char>)
    ensures
        well_formed_parts(text_parts(s)),
        text_parts(parts_text(text_parts(s))) == text_parts(s),
{
    let pieces = split_on(s, '\n');
    lemma_split_on_pieces(s, '\n');
    let ls = trim_all(pieces);
    assert forall|j: int| 0 <= j < ls.len() implies !(#[trigger] ls[j]).contains('\n') && trim(ls[j])
        == ls[j] by {
        assert(!pieces[j].contains('\n'));
        lemma_trim_clean(pieces[j], '\n');
    }
    lemma_group_good(ls);
    let st = group_lines(ls);
    let p = close_group(st);
    if st.1.len() > 0 {
        assert forall|k: int| 0 <= k < p.len() implies (#[trigger] p[k]).len() > 0 && forall|j: int|
            0 <= j < p[k].len() ==> is_clean_line(#[trigger] p[k][j]) by {
            if k < st.0.len() {
                assert(p[k] == st.0[k]);
            }
        }
    }
    law_parts_roundtrip(text_parts(s));
}

proof fn lemma_join_concat(x: Seq<Seq<char>>, y: Seq<Seq<char>>, sep: Seq<char>)
    requires
        x.len() > 0,
        y.len() > 0,
    ensures
        join(x + y, sep) == join(x, sep) + sep + join(y, sep),
    decreases y.len(),
{
    assert((x + y).last() == y.last());
    if y.len() == 1 {
        assert((x + y).drop_last() =~= x);
        assert(y.last() == y[0]);
    } else {
        assert((x + y).drop_last() =~= x + y.drop_last());
        lemma_join_concat(x, y.drop_last(), sep);
        assert(join(x, sep) + sep + join(y.drop_last(), sep) + sep + y.last() =~= join(x, sep) + sep
            + (join(y.drop_last(), sep) + sep + y.last()));
    }
}

/// `to_text` of the parts of two non-empty lists is the text of the first,
/// an empty line, and the text of the second; the text of one part is its
/// lines joined by line breaks.
pub proof fn law_to_text_concat(a: Seq<Seq<Seq<char>>>, b: Seq<Seq<Seq<char>>>, p: Seq<Seq<char>>)
    requires
        a.len() > 0,
        b.len() > 0,
    ensures
        parts_text(a + b) == parts_text(a) + seq!['\n', '\n'] + parts_text(b),
        parts_text(seq![p]) == join(p, seq!['\n']),
{
    let f = |q: Seq<Seq<char>>| join(q, seq!['\n']);
    assert((a + b).map_values(f) =~= a.map_values(f) + b.map_values(f));
    lemma_join_concat(a.map_values(f), b.map_values(f), seq!['\n', '\n']);
    assert(seq![p].map_values(f) =~= seq![join(p, seq!['\n'])]);
}

} // verus!
