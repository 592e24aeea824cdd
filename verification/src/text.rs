use vstd::prelude::*;

verus! {

// ---------------------------------------------------------------------------
// Characters
// ---------------------------------------------------------------------------

/// The Unicode `White_Space` property, which is what `char::is_whitespace`
/// (and hence `str::trim`) tests.
pub open spec fn is_space(c: char) -> bool {
    let u = c as u32;
    ||| 0x09 <= u <= 0x0D
    ||| u == 0x20
    ||| u == 0x85
    ||| u == 0xA0
    ||| u == 0x1680
    ||| 0x2000 <= u <= 0x200A
    ||| u == 0x2028
    ||| u == 0x2029
    ||| u == 0x202F
    ||| u == 0x205F
    ||| u == 0x3000
}

/// Tests `c` for the Unicode `White_Space` property.
pub fn is_space_char(c: char) -> (b: bool)
    ensures
        b == is_space(c),
{
    let u = c as u32;
    (0x09 <= u && u <= 0x0D) || u == 0x20 || u == 0x85 || u == 0xA0 || u == 0x1680 || (0x2000
        <= u && u <= 0x200A) || u == 0x2028 || u == 0x2029 || u == 0x202F || u == 0x205F || u
        == 0x3000
}

/// Copies the characters of `s` into a vector, in order.
pub fn chars_of(s: &str) -> (v: Vec<char>)
    ensures
        v@ == s@,
{
    let mut v: Vec<char> = Vec::new();
    for c in it: s.chars()
        invariant
            it.seq() == s@,
            v@ == it.seq().take(it.index() as int),
    {
        v.push(c);
    }
    v
}

/// The owned text of the characters `from..to` of `s`.
pub fn substring(s: &str, from: usize, to: usize) -> (r: String)
    requires
        from <= to <= s@.len(),
    ensures
        r@ == s@.subrange(from as int, to as int),
{
    s.substring_char(from, to).to_owned()
}

// ---------------------------------------------------------------------------
// Trimming
// ---------------------------------------------------------------------------

/// `s` without its leading white space.
pub open spec fn trim_start(s: Seq<char>) -> Seq<char>
    decreases s.len(),
{
    if s.len() > 0 && is_space(s[0]) {
        trim_start(s.drop_first())
    } else {
        s
    }
}

/// `s` without its trailing white space.
pub open spec fn trim_end(s: Seq<char>) -> Seq<char>
    decreases s.len(),
{
    if s.len() > 0 && is_space(s.last()) {
        trim_end(s.drop_last())
    } else {
        s
    }
}

/// `s` without leading and trailing white space, as `str::trim` gives it.
pub open spec fn trim(s: Seq<char>) -> Seq<char> {
    trim_end(trim_start(s))
}

/// Bounds `(a, b)` such that `v[a..b]` is the trimmed text of `v[lo..hi]`.
pub fn trim_bounds(v: &Vec<char>, lo: usize, hi: usize) -> (r: (usize, usize))
    requires
        lo <= hi <= v.len(),
    ensures
        lo <= r.0 <= r.1 <= hi,
        v@.subrange(r.0 as int, r.1 as int) == trim(v@.subrange(lo as int, hi as int)),
{
    let mut a = lo;
    while a < hi && is_space_char(v[a])
        invariant
            lo <= a <= hi,
            hi <= v.len(),
            trim_start(v@.subrange(lo as int, hi as int)) == trim_start(
                v@.subrange(a as int, hi as int),
            ),
        decreases hi - a,
    {
        assert(v@.subrange(a as int, hi as int).drop_first() =~= v@.subrange(a + 1, hi as int));
        a = a + 1;
    }
    assert(trim_start(v@.subrange(a as int, hi as int)) == v@.subrange(a as int, hi as int)) by {
        if a < hi {
            assert(v@.subrange(a as int, hi as int)[0] == v@[a as int]);
        }
    }
    let mut b = hi;
    while b > a && is_space_char(v[b - 1])
        invariant
            a <= b <= hi,
            hi <= v.len(),
            trim_end(v@.subrange(a as int, hi as int)) == trim_end(
                v@.subrange(a as int, b as int),
            ),
        decreases b - a,
    {
        assert(v@.subrange(a as int, b as int).drop_last() =~= v@.subrange(a as int, b - 1));
        b = b - 1;
    }
    assert(trim_end(v@.subrange(a as int, b as int)) == v@.subrange(a as int, b as int)) by {
        if a < b {
            assert(v@.subrange(a as int, b as int).last() == v@[b - 1]);
        }
    }
    (a, b)
}


/// `trim_start` drops a prefix, after which no white space leads.
pub proof fn lemma_trim_start_shape(s: Seq<char>) -> (k: int)
    ensures
        0 <= k <= s.len(),
        trim_start(s) == s.skip(k),
        trim_start(s).len() > 0 ==> !is_space(trim_start(s)[0]),
        forall|j: int| 0 <= j < k ==> is_space(#[trigger] s[j]),
    decreases s.len(),
{
    if s.len() > 0 && is_space(s[0]) {
        let k1 = lemma_trim_start_shape(s.drop_first());
        assert forall|j: int| 0 <= j < k1 + 1 implies is_space(#[trigger] s[j]) by {
            if j > 0 {
                assert(s[j] == s.drop_first()[j - 1]);
            }
        }
        assert(s.drop_first().skip(k1) =~= s.skip(k1 + 1));
        k1 + 1
    } else {
        assert(s.skip(0) =~= s);
        0
    }
}

/// `trim_end` drops a suffix, before which no white space trails.
pub proof fn lemma_trim_end_shape(s: Seq<char>) -> (k: int)
    ensures
        0 <= k <= s.len(),
        trim_end(s) == s.take(k),
        trim_end(s).len() > 0 ==> !is_space(trim_end(s).last()),
        forall|j: int| k <= j < s.len() ==> is_space(#[trigger] s[j]),
    decreases s.len(),
{
    if s.len() > 0 && is_space(s.last()) {
        let k1 = lemma_trim_end_shape(s.drop_last());
        assert forall|j: int| k1 <= j < s.len() implies is_space(#[trigger] s[j]) by {
            if j < s.len() - 1 {
                assert(s[j] == s.drop_last()[j]);
            }
        }
        assert(s.drop_last().take(k1) =~= s.take(k1));
        k1
    } else {
        assert(s.take(s.len() as int) =~= s);
        s.len() as int
    }
}

/// Trimming twice trims no more than once, and trimming adds no character.
pub proof fn lemma_trim_clean(s: Seq<char>, c: char)
    ensures
        trim(trim(s)) == trim(s),
        !s.contains(c) ==> !trim(s).contains(c),
{
    let y = trim_start(s);
    let k1 = lemma_trim_start_shape(s);
    let z = trim_end(y);
    let k2 = lemma_trim_end_shape(y);
    if z.len() > 0 {
        assert(z[0] == y[0]);
    }
    assert(trim_start(z) == z);
    assert(trim_end(z) == z);
    if !s.contains(c) && z.contains(c) {
        let j = choose|j: int| 0 <= j < z.len() && z[j] == c;
        assert(s[k1 + j] == c);
    }
}

// ---------------------------------------------------------------------------
// Splitting at a character
// ---------------------------------------------------------------------------

/// The pieces of `s` between the occurrences of `sep`, as `str::split` with a
/// `char` pattern yields them: one more piece than there are separators.
pub open spec fn split_on(s: Seq<char>, sep: char) -> Seq<Seq<char>>
    decreases s.len(),
{
    if s.len() == 0 {
        seq![Seq::<char>::empty()]
    } else {
        let prev = split_on(s.drop_last(), sep);
        if s.last() == sep {
            prev.push(Seq::<char>::empty())
        } else {
            prev.drop_last().push(prev.last().push(s.last()))
        }
    }
}

/// There is always at least one piece.
pub proof fn lemma_split_on_nonempty(s: Seq<char>, sep: char)
    ensures
        split_on(s, sep).len() >= 1,
    decreases s.len(),
{
    if s.len() > 0 {
        lemma_split_on_nonempty(s.drop_last(), sep);
    }
}

/// How the pieces grow by one character.
pub proof fn lemma_split_on_step(s: Seq<char>, sep: char, i: int)
    requires
        0 <= i < s.len(),
    ensures
        s[i] == sep ==> split_on(s.take(i + 1), sep) == split_on(s.take(i), sep).push(
            Seq::<char>::empty(),
        ),
        s[i] != sep ==> split_on(s.take(i + 1), sep) == split_on(s.take(i), sep).drop_last().push(
            split_on(s.take(i), sep).last().push(s[i]),
        ),
{
    assert(s.take(i + 1).drop_last() =~= s.take(i));
    assert(s.take(i + 1).last() == s[i]);
}

/// A text without the separator is one piece.
pub proof fn lemma_split_on_single(s: Seq<char>, sep: char)
    requires
        !s.contains(sep),
    ensures
        split_on(s, sep) == seq![s],
    decreases s.len(),
{
    if s.len() == 0 {
        assert(s =~= Seq::<char>::empty());
    } else {
        let t = s.drop_last();
        assert(!t.contains(sep)) by {
            if t.contains(sep) {
                let k = choose|k: int| 0 <= k < t.len() && t[k] == sep;
                assert(s[k] == sep);
            }
        }
        lemma_split_on_single(t, sep);
        assert(s.last() != sep) by {
            if s.last() == sep {
                assert(s[s.len() - 1] == sep);
            }
        }
        assert(t.push(s.last()) =~= s);
        let prev = split_on(t, sep);
        assert(prev.drop_last().push(prev.last().push(s.last())) =~= seq![s]);
    }
}

/// Splitting a concatenation around one separator.
pub proof fn lemma_split_on_concat(a: Seq<char>, b: Seq<char>, sep: char)
    ensures
        split_on(a + seq![sep] + b, sep) == split_on(a, sep) + split_on(b, sep),
    decreases b.len(),
{
    lemma_split_on_nonempty(a, sep);
    lemma_split_on_nonempty(b, sep);
    if b.len() == 0 {
        assert((a + seq![sep] + b).drop_last() =~= a);
        assert(split_on(b, sep) =~= seq![Seq::<char>::empty()]);
        assert(split_on(a, sep) + split_on(b, sep) =~= split_on(a, sep).push(
            Seq::<char>::empty(),
        ));
    } else {
        let s = a + seq![sep] + b;
        assert(s.drop_last() =~= a + seq![sep] + b.drop_last());
        assert(s.last() == b.last());
        lemma_split_on_concat(a, b.drop_last(), sep);
        lemma_split_on_nonempty(b.drop_last(), sep);
        let pa = split_on(a, sep);
        let pb = split_on(b.drop_last(), sep);
        if b.last() == sep {
            assert((pa + pb).push(Seq::<char>::empty()) =~= pa + pb.push(Seq::<char>::empty()));
        } else {
            assert((pa + pb).drop_last().push((pa + pb).last().push(b.last())) =~= pa
                + pb.drop_last().push(pb.last().push(b.last())));
        }
    }
}

/// No piece holds the separator.
pub proof fn lemma_split_on_pieces(s: Seq<char>, sep: char)
    ensures
        forall|k: int| 0 <= k < split_on(s, sep).len() ==> !(#[trigger] split_on(s, sep)[k]).contains(sep),
    decreases s.len(),
{
    lemma_split_on_nonempty(s, sep);
    if s.len() > 0 {
        lemma_split_on_pieces(s.drop_last(), sep);
        lemma_split_on_nonempty(s.drop_last(), sep);
        let prev = split_on(s.drop_last(), sep);
        if s.last() != sep {
            let l = prev.last().push(s.last());
            assert(!l.contains(sep)) by {
                if l.contains(sep) {
                    let j = choose|j: int| 0 <= j < l.len() && l[j] == sep;
                    if j < l.len() - 1 {
                        assert(prev[prev.len() - 1][j] == sep);
                    }
                }
            }
            assert forall|k: int| 0 <= k < split_on(s, sep).len() implies !(#[trigger] split_on(
                s,
                sep,
            )[k]).contains(sep) by {
                if k < prev.len() - 1 {
                    assert(split_on(s, sep)[k] == prev[k]);
                }
            }
        } else {
            assert forall|k: int| 0 <= k < split_on(s, sep).len() implies !(#[trigger] split_on(
                s,
                sep,
            )[k]).contains(sep) by {
                if k < prev.len() {
                    assert(split_on(s, sep)[k] == prev[k]);
                } else {
                    assert(split_on(s, sep)[k] =~= Seq::<char>::empty());
                }
            }
        }
    }
}

// ---------------------------------------------------------------------------
// Splitting at a pattern
// ---------------------------------------------------------------------------

/// `pat` occurs in `s` at position `i`.
pub open spec fn occurs_at(s: Seq<char>, pat: Seq<char>, i: int) -> bool {
    0 <= i && i + pat.len() <= s.len() && s.subrange(i, i + pat.len()) == pat
}

/// `pat` occurs somewhere in `s`.
pub open spec fn has_occurrence(s: Seq<char>, pat: Seq<char>) -> bool {
    exists|i: int| occurs_at(s, pat, i)
}

/// The pieces of `s` that `str::split` with the pattern `pat` yields, taking
/// the matches from left to right without overlap: the current piece started
/// at `start` and the search for the next match goes on at `pos`.
pub open spec fn split_from(s: Seq<char>, pat: Seq<char>, start: int, pos: int) -> Seq<
    Seq<char>,
>
    decreases s.len() - pos,
    when pat.len() > 0
{
    if pos + pat.len() > s.len() {
        seq![s.subrange(start, s.len() as int)]
    } else if s.subrange(pos, pos + pat.len()) == pat {
        seq![s.subrange(start, pos)] + split_from(s, pat, pos + pat.len(), pos + pat.len())
    } else {
        split_from(s, pat, start, pos + 1)
    }
}

/// Scanning on to the next match at `q`, with no match before it.
pub proof fn lemma_split_from_scan(s: Seq<char>, pat: Seq<char>, start: int, pos: int, q: int)
    requires
        pat.len() > 0,
        0 <= start <= pos <= q,
        occurs_at(s, pat, q),
        forall|j: int| pos <= j < q ==> !occurs_at(s, pat, j),
    ensures
        split_from(s, pat, start, pos) == seq![s.subrange(start, q)] + split_from(
            s,
            pat,
            q + pat.len(),
            q + pat.len(),
        ),
    decreases q - pos,
{
    if pos < q {
        assert(!occurs_at(s, pat, pos));
        lemma_split_from_scan(s, pat, start, pos + 1, q);
    }
}

/// With no match from `pos` on, the rest of the text is the last piece.
pub proof fn lemma_split_from_rest(s: Seq<char>, pat: Seq<char>, start: int, pos: int)
    requires
        pat.len() > 0,
        0 <= start <= pos,
        forall|j: int| pos <= j ==> !occurs_at(s, pat, j),
    ensures
        split_from(s, pat, start, pos) == seq![s.subrange(start, s.len() as int)],
    decreases s.len() - pos,
{
    if pos + pat.len() <= s.len() {
        assert(!occurs_at(s, pat, pos));
        lemma_split_from_rest(s, pat, start, pos + 1);
    }
}

/// The pieces of `s` between the matches of `pat`, as `str::split` yields them.
pub open spec fn split_str(s: Seq<char>, pat: Seq<char>) -> Seq<Seq<char>> {
    split_from(s, pat, 0, 0)
}

/// Whether `pat` occurs in `v` at `pos`.
pub fn matches_at(v: &Vec<char>, pat: &Vec<char>, pos: usize) -> (b: bool)
    requires
        pos + pat.len() <= v.len(),
    ensures
        b == (v@.subrange(pos as int, pos + pat.len()) == pat@),
{
    let mut k: usize = 0;
    while k < pat.len()
        invariant
            k <= pat.len(),
            pos + pat.len() <= v.len(),
            forall|j: int| 0 <= j < k ==> v@[pos + j] == pat@[j],
        decreases pat.len() - k,
    {
        if v[pos + k] != pat[k] {
            assert(v@.subrange(pos as int, pos + pat.len())[k as int] != pat@[k as int]);
            return false;
        }
        k = k + 1;
    }
    assert(v@.subrange(pos as int, pos + pat.len()) =~= pat@);
    true
}

/// The `(start, end)` character bounds of each piece of `v` split at `pat`.
pub fn split_bounds(v: &Vec<char>, pat: &Vec<char>) -> (r: Vec<(usize, usize)>)
    requires
        pat.len() > 0,
    ensures
        split_str(v@, pat@) == r@.map_values(
            |p: (usize, usize)| v@.subrange(p.0 as int, p.1 as int),
        ),
        forall|k: int| #![trigger r@[k]] 0 <= k < r.len() ==> r@[k].0 <= r@[k].1 <= v.len(),
{
    let n = v.len();
    let m = pat.len();
    let mut r: Vec<(usize, usize)> = Vec::new();
    let mut start: usize = 0;
    let mut pos: usize = 0;
    while pos <= n && m <= n - pos
        invariant
            n == v.len(),
            m == pat.len(),
            m > 0,
            start <= pos <= n,
            forall|k: int| #![trigger r@[k]] 0 <= k < r.len() ==> r@[k].0 <= r@[k].1 <= n,
            split_str(v@, pat@) == r@.map_values(
                |p: (usize, usize)| v@.subrange(p.0 as int, p.1 as int),
            ) + split_from(v@, pat@, start as int, pos as int),
        decreases n - pos,
    {
        let ghost old_r = r@;
        if matches_at(v, pat, pos) {
            r.push((start, pos));
            assert(r@.map_values(|p: (usize, usize)| v@.subrange(p.0 as int, p.1 as int))
                =~= old_r.map_values(|p: (usize, usize)| v@.subrange(p.0 as int, p.1 as int))
                + seq![v@.subrange(start as int, pos as int)]);
            assert forall|k: int| #![trigger r@[k]] 0 <= k < r.len() implies r@[k].0 <= r@[k].1 <= n by {
                if k < old_r.len() {
                    assert(r@[k] == old_r[k]);
                }
            }
            pos = pos + m;
            start = pos;
        } else {
            pos = pos + 1;
        }
    }
    let ghost old_r = r@;
    r.push((start, n));
    assert(r@.map_values(|p: (usize, usize)| v@.subrange(p.0 as int, p.1 as int)) =~= old_r.map_values(
        |p: (usize, usize)| v@.subrange(p.0 as int, p.1 as int),
    ) + seq![v@.subrange(start as int, n as int)]);
    assert forall|k: int| #![trigger r@[k]] 0 <= k < r.len() implies r@[k].0 <= r@[k].1 <= v.len() by {
        if k < old_r.len() {
            assert(r@[k] == old_r[k]);
        }
    }
    r
}

// ---------------------------------------------------------------------------
// Joining
// ---------------------------------------------------------------------------

/// The items joined with `sep` between them, as `[String]::join` gives it.
pub open spec fn join(items: Seq<Seq<char>>, sep: Seq<char>) -> Seq<char>
    decreases items.len(),
{
    if items.len() == 0 {
        Seq::<char>::empty()
    } else if items.len() == 1 {
        items[0]
    } else {
        join(items.drop_last(), sep) + sep + items.last()
    }
}

/// Joins the texts of `items` with `sep` between them.
pub fn join_strings(items: &Vec<String>, sep: &str) -> (r: String)
    ensures
        r@ == join(items.deep_view(), sep@),
{
    let mut r = String::new();
    let ghost views = items.deep_view();
    let mut i: usize = 0;
    while i < items.len()
        invariant
            i <= items.len(),
            views == items.deep_view(),
            r@ == join(views.take(i as int), sep@),
        decreases items.len() - i,
    {
        assert(views.take(i + 1).drop_last() =~= views.take(i as int));
        assert(views[i as int] == items@[i as int]@);
        if i > 0 {
            r.append(sep);
        }
        r.append(items[i].as_str());
        i = i + 1;
    }
    assert(views.take(items.len() as int) =~= views);
    r
}

// ---------------------------------------------------------------------------
// Numbers
// ---------------------------------------------------------------------------

/// The decimal digit for `d < 10`.
pub open spec fn digit(d: nat) -> char {
    if d == 0 {
        '0'
    } else if d == 1 {
        '1'
    } else if d == 2 {
        '2'
    } else if d == 3 {
        '3'
    } else if d == 4 {
        '4'
    } else if d == 5 {
        '5'
    } else if d == 6 {
        '6'
    } else if d == 7 {
        '7'
    } else if d == 8 {
        '8'
    } else {
        '9'
    }
}

/// The decimal notation of `n`, without leading zeros, as `Display` writes an
/// unsigned integer.
pub open spec fn decimal(n: nat) -> Seq<char>
    decreases n,
{
    if n < 10 {
        seq![digit(n)]
    } else {
        decimal(n / 10).push(digit(n % 10))
    }
}

/// The one-character text of the digit `d < 10`.
fn digit_text(d: u64) -> (r: &'static str)
    requires
        d < 10,
    ensures
        r@ == seq![digit(d as nat)],
{
    proof {
        reveal_strlit("0");
        reveal_strlit("1");
        reveal_strlit("2");
        reveal_strlit("3");
        reveal_strlit("4");
        reveal_strlit("5");
        reveal_strlit("6");
        reveal_strlit("7");
        reveal_strlit("8");
        reveal_strlit("9");
    }
    if d == 0 {
        "0"
    } else if d == 1 {
        "1"
    } else if d == 2 {
        "2"
    } else if d == 3 {
        "3"
    } else if d == 4 {
        "4"
    } else if d == 5 {
        "5"
    } else if d == 6 {
        "6"
    } else if d == 7 {
        "7"
    } else if d == 8 {
        "8"
    } else {
        "9"
    }
}

/// The decimal notation of `n`.
pub fn decimal_string(n: u64) -> (r: String)
    ensures
        r@ == decimal(n as nat),
    decreases n,
{
    if n < 10 {
        digit_text(n).to_owned()
    } else {
        let mut r = decimal_string(n / 10);
        r.append(digit_text(n % 10));
        r
    }
}

/// The number that a text of decimal digits stands for.
pub open spec fn decimal_value(s: Seq<char>) -> int
    decreases s.len(),
{
    if s.len() == 0 {
        0
    } else {
        decimal_value(s.drop_last()) * 10 + (s.last() as int - '0' as int)
    }
}

/// The digit for `d` stands for `d`.
proof fn lemma_digit_value(d: nat)
    requires
        d < 10,
    ensures
        digit(d) as int - '0' as int == d,
        '0' <= digit(d) <= '9',
        d > 0 ==> digit(d) != '0',
{
    assert(('0' as int) == 48);
    assert(('9' as int) == 57);
    if d == 0 {
    } else if d == 1 {
        assert(('1' as int) == 49);
    } else if d == 2 {
        assert(('2' as int) == 50);
    } else if d == 3 {
        assert(('3' as int) == 51);
    } else if d == 4 {
        assert(('4' as int) == 52);
    } else if d == 5 {
        assert(('5' as int) == 53);
    } else if d == 6 {
        assert(('6' as int) == 54);
    } else if d == 7 {
        assert(('7' as int) == 55);
    } else if d == 8 {
        assert(('8' as int) == 56);
    }
}

/// The decimal notation of `n` is made of digits only, starts with a digit
/// other than `0` unless `n` is `0`, and reads back as `n`.
pub proof fn law_decimal_reads_back(n: nat)
    ensures
        decimal(n).len() > 0,
        forall|i: int| 0 <= i < decimal(n).len() ==> '0' <= #[trigger] decimal(n)[i] <= '9',
        n > 0 ==> decimal(n)[0] != '0',
        decimal_value(decimal(n)) == n,
    decreases n,
{
    lemma_digit_value(n % 10);
    if n >= 10 {
        law_decimal_reads_back(n / 10);
        let d = decimal(n);
        assert(d.drop_last() == decimal(n / 10));
        assert(d[0] == decimal(n / 10)[0]);
        assert forall|i: int| 0 <= i < d.len() implies '0' <= #[trigger] d[i] <= '9' by {
            if i < d.len() - 1 {
                assert(d[i] == decimal(n / 10)[i]);
            }
        }
        assert(d.last() == digit(n % 10));
        assert(decimal_value(d) == decimal_value(decimal(n / 10)) * 10 + (digit(n % 10) as int
            - '0' as int));
        assert((n / 10) * 10 + n % 10 == n);
    } else {
        let d = decimal(n);
        assert(d.drop_last() =~= Seq::<char>::empty());
        assert(decimal_value(d.drop_last()) == 0);
    }
}

/// Trimming drops white space only, at both ends, and keeps everything in
/// between: the trimmed text is `s[a..b]`, every character before `a` and
/// from `b` on is white space, and a trimmed text that is not empty starts
/// and ends with a character that is not.
pub proof fn law_trim_drops_only_space(s: Seq<char>) -> (r: (int, int))
    ensures
        0 <= r.0 <= r.1 <= s.len(),
        trim(s) == s.subrange(r.0, r.1),
        forall|j: int| 0 <= j < r.0 ==> is_space(#[trigger] s[j]),
        forall|j: int| r.1 <= j < s.len() ==> is_space(#[trigger] s[j]),
        trim(s).len() > 0 ==> !is_space(trim(s)[0]) && !is_space(trim(s).last()),
{
    let y = trim_start(s);
    let a = lemma_trim_start_shape(s);
    let b = lemma_trim_end_shape(y);
    assert(trim(s) =~= s.subrange(a, a + b));
    assert forall|j: int| a + b <= j < s.len() implies is_space(#[trigger] s[j]) by {
        assert(s[j] == y[j - a]);
    }
    if trim(s).len() > 0 {
        assert(trim(s)[0] == y[0]);
    }
    (a, a + b)
}

/// Joining with a piece in front puts that piece and a separator before the
/// rest.
proof fn lemma_join_front(a: Seq<char>, items: Seq<Seq<char>>, sep: Seq<char>)
    requires
        items.len() > 0,
    ensures
        join(seq![a] + items, sep) == a + sep + join(items, sep),
    decreases items.len(),
{
    let all = seq![a] + items;
    assert(all.drop_last() =~= seq![a] + items.drop_last());
    if items.len() == 1 {
        assert(seq![a].drop_last() =~= Seq::<Seq<char>>::empty());
        assert(join(seq![a], sep) == a);
    } else {
        lemma_join_front(a, items.drop_last(), sep);
        assert(a + sep + join(items.drop_last(), sep) + sep + items.last() =~= a + sep + (join(
            items.drop_last(),
            sep,
        ) + sep + items.last()));
    }
}

/// The pieces from `start` on, with no match of `pat` between `start` and
/// `pos`, join back to the rest of the text, and none holds `pat`.
proof fn lemma_split_from_pieces(s: Seq<char>, pat: Seq<char>, start: int, pos: int)
    requires
        pat.len() > 0,
        0 <= start <= pos <= s.len(),
        forall|j: int| start <= j < pos ==> !occurs_at(s, pat, j),
    ensures
        split_from(s, pat, start, pos).len() > 0,
        join(split_from(s, pat, start, pos), pat) == s.subrange(start, s.len() as int),
        forall|k: int|
            0 <= k < split_from(s, pat, start, pos).len() ==> !has_occurrence(
                #[trigger] split_from(s, pat, start, pos)[k],
                pat,
            ),
    decreases s.len() - pos,
{
    let m = pat.len() as int;
    if pos + m > s.len() {
        let piece = s.subrange(start, s.len() as int);
        assert(split_from(s, pat, start, pos) == seq![piece]);
        if has_occurrence(piece, pat) {
            let i = choose|i: int| occurs_at(piece, pat, i);
            assert(s.subrange(start + i, start + i + m) =~= piece.subrange(i, i + m));
            assert(occurs_at(s, pat, start + i));
        }
    } else if s.subrange(pos, pos + m) == pat {
        let piece = s.subrange(start, pos);
        let rest = split_from(s, pat, pos + m, pos + m);
        lemma_split_from_pieces(s, pat, pos + m, pos + m);
        assert(split_from(s, pat, start, pos) == seq![piece] + rest);
        lemma_join_front(piece, rest, pat);
        assert(piece + pat + s.subrange(pos + m, s.len() as int) =~= s.subrange(
            start,
            s.len() as int,
        ));
        if has_occurrence(piece, pat) {
            let i = choose|i: int| occurs_at(piece, pat, i);
            assert(s.subrange(start + i, start + i + m) =~= piece.subrange(i, i + m));
            assert(occurs_at(s, pat, start + i));
        }
        assert forall|k: int| 0 <= k < split_from(s, pat, start, pos).len() implies !has_occurrence(
            #[trigger] split_from(s, pat, start, pos)[k],
            pat,
        ) by {
            if k > 0 {
                assert(split_from(s, pat, start, pos)[k] == rest[k - 1]);
            }
        }
    } else {
        assert(!occurs_at(s, pat, pos));
        lemma_split_from_pieces(s, pat, start, pos + 1);
    }
}

/// Splitting at a non-empty pattern cuts the text at matches of the pattern
/// and nowhere else: joining the pieces with the pattern gives the text
/// back, and no piece holds the pattern.
pub proof fn law_split_str_pieces(s: Seq<char>, pat: Seq<char>)
    requires
        pat.len() > 0,
    ensures
        join(split_str(s, pat), pat) == s,
        forall|k: int|
            0 <= k < split_str(s, pat).len() ==> !has_occurrence(#[trigger] split_str(s, pat)[k], pat),
{
    lemma_split_from_pieces(s, pat, 0, 0);
    assert(s.subrange(0, s.len() as int) =~= s);
}

/// Splitting at a character cuts the text at that character and nowhere
/// else: joining the pieces with it gives the text back, and no piece holds
/// it.
pub proof fn law_split_on_rejoins(s: Seq<char>, sep: char)
    ensures
        join(split_on(s, sep), seq![sep]) == s,
        forall|k: int| 0 <= k < split_on(s, sep).len() ==> !(#[trigger] split_on(s, sep)[k]).contains(sep),
    decreases s.len(),
{
    lemma_split_on_pieces(s, sep);
    if s.len() > 0 {
        let t = s.drop_last();
        let prev = split_on(t, sep);
        law_split_on_rejoins(t, sep);
        lemma_split_on_nonempty(t, sep);
        let c = s.last();
        if c == sep {
            let n = prev.push(Seq::<char>::empty());
            assert(n.drop_last() =~= prev);
            assert(join(n, seq![sep]) == t + seq![sep] + Seq::<char>::empty());
            assert(t + seq![sep] + Seq::<char>::empty() =~= s);
        } else {
            let n = prev.drop_last().push(prev.last().push(c));
            assert(n.drop_last() =~= prev.drop_last());
            if prev.len() == 1 {
                assert(join(n, seq![sep]) == prev[0].push(c));
                assert(prev[0].push(c) =~= s);
            } else {
                assert(join(n, seq![sep]) == join(prev.drop_last(), seq![sep]) + seq![sep]
                    + prev.last().push(c));
                assert(join(prev.drop_last(), seq![sep]) + seq![sep] + prev.last().push(c) =~= t.push(c));
                assert(t.push(c) =~= s);
            }
        }
    }
}

} // verus!
