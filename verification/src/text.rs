//! Verified text primitives: whitespace fields, separator splitting and line
//! splitting, each proved against a recursive specification of the matching
//! `str` method's documented behaviour.

use vstd::prelude::*;
use vstd::string::StrSliceExecFns;

verus! {

/// The characters of the Unicode `White_Space` set, the set that
/// `str::split_whitespace` splits on.
pub open spec fn is_wspace(c: char) -> bool {
    c == ' ' || c == '\t' || c == '\n' || c == '\r' || c == '\u{0b}' || c == '\u{0c}'
        || c == '\u{85}' || c == '\u{a0}' || c == '\u{1680}' || c == '\u{2000}'
        || c == '\u{2001}' || c == '\u{2002}' || c == '\u{2003}' || c == '\u{2004}'
        || c == '\u{2005}' || c == '\u{2006}' || c == '\u{2007}' || c == '\u{2008}'
        || c == '\u{2009}' || c == '\u{200a}' || c == '\u{2028}' || c == '\u{2029}'
        || c == '\u{202f}' || c == '\u{205f}' || c == '\u{3000}'
}

pub fn is_wspace_char(c: char) -> (r: bool)
    ensures
        r == is_wspace(c),
{
    c == ' ' || c == '\t' || c == '\n' || c == '\r' || c == '\u{0b}' || c == '\u{0c}'
        || c == '\u{85}' || c == '\u{a0}' || c == '\u{1680}' || c == '\u{2000}'
        || c == '\u{2001}' || c == '\u{2002}' || c == '\u{2003}' || c == '\u{2004}'
        || c == '\u{2005}' || c == '\u{2006}' || c == '\u{2007}' || c == '\u{2008}'
        || c == '\u{2009}' || c == '\u{200a}' || c == '\u{2028}' || c == '\u{2029}'
        || c == '\u{202f}' || c == '\u{205f}' || c == '\u{3000}'
}

/// The views of a vector of strings.
pub open spec fn views_of(ts: Seq<String>) -> Seq<Seq<char>> {
    ts.map_values(|t: String| t@)
}

// ---------- whitespace fields ----------

/// What `str::split_whitespace` yields: the maximal runs of non-whitespace
/// characters, in order, with no empty runs.
pub open spec fn split_ws(s: Seq<char>) -> Seq<Seq<char>>
    decreases s.len(),
{
    if s.len() == 0 {
        Seq::<Seq<char>>::empty()
    } else if is_wspace(s[0]) {
        split_ws(s.skip(1))
    } else {
        let rest = split_ws(s.skip(1));
        if s.len() > 1 && !is_wspace(s[1]) {
            seq![seq![s[0]] + rest[0]] + rest.skip(1)
        } else {
            seq![seq![s[0]]] + rest
        }
    }
}

/// A maximal leading non-whitespace run of length `k` is the first field, and
/// the rest of the fields are those of the remainder.
proof fn lemma_split_ws_token(s: Seq<char>, k: int)
    requires
        0 < k <= s.len(),
        forall|m: int| 0 <= m < k ==> !is_wspace(s[m]),
        k == s.len() || is_wspace(s[k]),
    ensures
        split_ws(s) == seq![s.take(k)] + split_ws(s.skip(k)),
    decreases k,
{
    assert(!is_wspace(s[0]));
    if k == 1 {
        assert(s.take(1) =~= seq![s[0]]);
        assert(split_ws(s) =~= seq![s.take(1)] + split_ws(s.skip(1)));
    } else {
        let t = s.skip(1);
        assert(!is_wspace(s[1]));
        assert forall|m: int| 0 <= m < k - 1 implies !is_wspace(t[m]) by {
            assert(t[m] == s[m + 1]);
        }
        assert(k - 1 == t.len() || is_wspace(t[k - 1]));
        lemma_split_ws_token(t, k - 1);
        let rest = split_ws(t);
        assert(t.take(k - 1) =~= s.subrange(1, k));
        assert(t.skip(k - 1) =~= s.skip(k));
        assert(rest == seq![s.subrange(1, k)] + split_ws(s.skip(k)));
        assert(rest[0] == s.subrange(1, k));
        assert(rest.skip(1) =~= split_ws(s.skip(k)));
        assert(seq![s[0]] + rest[0] =~= s.take(k));
        assert(split_ws(s) =~= seq![s.take(k)] + split_ws(s.skip(k)));
    }
}

/// Index of the first whitespace character at or after `from`, or the length
/// when there is none.
#[verifier::loop_isolation(false)]
fn scan_to_ws(s: &str, from: usize) -> (j: usize)
    requires
        from <= s@.len(),
    ensures
        from <= j <= s@.len(),
        forall|m: int| from <= m < j ==> !is_wspace(s@[m]),
        j < s@.len() ==> is_wspace(s@[j as int]),
{
    let n = s.unicode_len();
    let mut j = from;
    while j < n
        invariant
            from <= j <= n,
            forall|m: int| from <= m < j ==> !is_wspace(s@[m]),
        decreases n - j,
    {
        if is_wspace_char(s.get_char(j)) {
            return j;
        }
        j += 1;
    }
    j
}

/// `str::split_whitespace`, with each field collected as an owned `String`.
#[verifier::loop_isolation(false)]
pub fn split_whitespace_fields(s: &str) -> (r: Vec<String>)
    ensures
        views_of(r@) == split_ws(s@),
{
    let n = s.unicode_len();
    let mut r: Vec<String> = Vec::new();
    let mut i: usize = 0;
    proof {
        assert(views_of(r@) =~= Seq::<Seq<char>>::empty());
        assert(s@.skip(0) =~= s@);
    }
    while i < n
        invariant
            i <= n,
            split_ws(s@) == views_of(r@) + split_ws(s@.skip(i as int)),
        decreases n - i,
    {
        let c = s.get_char(i);
        if is_wspace_char(c) {
            proof {
                let t = s@.skip(i as int);
                assert(t[0] == s@[i as int]);
                assert(t.skip(1) =~= s@.skip(i + 1));
            }
            i += 1;
        } else {
            let start = i;
            let j = scan_to_ws(s, i + 1);
            let tok = s.substring_char(start, j).to_owned();
            let ghost prev = r@;
            r.push(tok);
            proof {
                let t = s@.skip(start as int);
                let k = j - start;
                assert forall|m: int| 0 <= m < k implies !is_wspace(t[m]) by {
                    assert(t[m] == s@[start + m]);
                }
                assert(k == t.len() || is_wspace(t[k as int]));
                lemma_split_ws_token(t, k as int);
                assert(t.take(k as int) =~= s@.subrange(start as int, j as int));
                assert(t.skip(k as int) =~= s@.skip(j as int));
                assert(views_of(r@) =~= views_of(prev).push(tok@));
                assert(views_of(prev) + (seq![tok@] + split_ws(s@.skip(j as int)))
                    =~= views_of(prev).push(tok@) + split_ws(s@.skip(j as int)));
            }
            i = j;
        }
    }
    proof {
        assert(s@.skip(n as int) =~= Seq::<char>::empty());
        assert(split_ws(s@) =~= views_of(r@));
    }
    r
}

// ---------- splitting on one separator ----------

/// What `str::split(sep)` yields for a `char` separator: the pieces between
/// the separators, empty pieces kept, one more piece than separators.
pub open spec fn split_on(s: Seq<char>, sep: char) -> Seq<Seq<char>>
    decreases s.len(),
{
    if s.len() == 0 {
        seq![Seq::<char>::empty()]
    } else if s[0] == sep {
        seq![Seq::<char>::empty()] + split_on(s.skip(1), sep)
    } else {
        let rest = split_on(s.skip(1), sep);
        seq![seq![s[0]] + rest[0]] + rest.skip(1)
    }
}

pub proof fn lemma_split_on_len(s: Seq<char>, sep: char)
    ensures
        split_on(s, sep).len() >= 1,
    decreases s.len(),
{
    if s.len() != 0 {
        lemma_split_on_len(s.skip(1), sep);
    }
}

/// When the first separator stands at index `j`, the first piece is what
/// precedes it and the rest are the pieces of what follows it.
proof fn lemma_split_on_head(s: Seq<char>, sep: char, j: int)
    requires
        0 <= j < s.len(),
        forall|m: int| 0 <= m < j ==> s[m] != sep,
        s[j] == sep,
    ensures
        split_on(s, sep) == seq![s.take(j)] + split_on(s.skip(j + 1), sep),
    decreases j,
{
    if j == 0 {
        assert(s.take(0) =~= Seq::<char>::empty());
        assert(split_on(s, sep) =~= seq![s.take(0)] + split_on(s.skip(1), sep));
    } else {
        let t = s.skip(1);
        assert forall|m: int| 0 <= m < j - 1 implies t[m] != sep by {
            assert(t[m] == s[m + 1]);
        }
        assert(t[j - 1] == s[j]);
        lemma_split_on_head(t, sep, j - 1);
        let rest = split_on(t, sep);
        assert(t.take(j - 1) =~= s.subrange(1, j));
        assert(t.skip(j) =~= s.skip(j + 1));
        assert(rest[0] == s.subrange(1, j));
        assert(rest.skip(1) =~= split_on(s.skip(j + 1), sep));
        assert(seq![s[0]] + rest[0] =~= s.take(j));
        assert(split_on(s, sep) =~= seq![s.take(j)] + split_on(s.skip(j + 1), sep));
    }
}

/// A sequence without the separator splits into itself alone.
proof fn lemma_split_on_whole(s: Seq<char>, sep: char)
    requires
        forall|m: int| 0 <= m < s.len() ==> s[m] != sep,
    ensures
        split_on(s, sep) == seq![s],
    decreases s.len(),
{
    if s.len() == 0 {
        assert(s =~= Seq::<char>::empty());
        assert(split_on(s, sep) =~= seq![s]);
    } else {
        let t = s.skip(1);
        lemma_split_on_whole(t, sep);
        let rest = split_on(t, sep);
        assert(rest[0] == t);
        assert(rest.skip(1) =~= Seq::<Seq<char>>::empty());
        assert(seq![s[0]] + t =~= s);
        assert(split_on(s, sep) =~= seq![s]);
    }
}

/// Index of the first occurrence of `sep` at or after `from`, or the length
/// when there is none.
#[verifier::loop_isolation(false)]
fn scan_to_char(s: &str, from: usize, sep: char) -> (j: usize)
    requires
        from <= s@.len(),
    ensures
        from <= j <= s@.len(),
        forall|m: int| from <= m < j ==> s@[m] != sep,
        j < s@.len() ==> s@[j as int] == sep,
{
    let n = s.unicode_len();
    let mut j = from;
    while j < n
        invariant
            from <= j <= n,
            forall|m: int| from <= m < j ==> s@[m] != sep,
        decreases n - j,
    {
        if s.get_char(j) == sep {
            return j;
        }
        j += 1;
    }
    j
}

/// `str::split` on a `char` separator, with each piece collected as an owned
/// `String`.
#[verifier::loop_isolation(false)]
pub fn split_on_char(s: &str, sep: char) -> (r: Vec<String>)
    ensures
        views_of(r@) == split_on(s@, sep),
{
    let n = s.unicode_len();
    let mut r: Vec<String> = Vec::new();
    let mut i: usize = 0;
    let mut j = scan_to_char(s, 0, sep);
    proof {
        assert(views_of(r@) =~= Seq::<Seq<char>>::empty());
        assert(s@.skip(0) =~= s@);
    }
    while j < n
        invariant
            i <= j <= n,
            forall|m: int| i <= m < j ==> s@[m] != sep,
            j < n ==> s@[j as int] == sep,
            split_on(s@, sep) == views_of(r@) + split_on(s@.skip(i as int), sep),
        decreases n - i,
    {
        let piece = s.substring_char(i, j).to_owned();
        let ghost prev = r@;
        r.push(piece);
        proof {
            let t = s@.skip(i as int);
            let k = j - i;
            assert forall|m: int| 0 <= m < k implies t[m] != sep by {
                assert(t[m] == s@[i + m]);
            }
            assert(t[k as int] == s@[j as int]);
            lemma_split_on_head(t, sep, k as int);
            assert(t.take(k as int) =~= s@.subrange(i as int, j as int));
            assert(t.skip(k + 1) =~= s@.skip(j + 1));
            assert(views_of(r@) =~= views_of(prev).push(piece@));
            assert(views_of(prev) + (seq![piece@] + split_on(s@.skip(j + 1), sep))
                =~= views_of(prev).push(piece@) + split_on(s@.skip(j + 1), sep));
        }
        i = j + 1;
        j = scan_to_char(s, i, sep);
    }
    // no separator is left: what remains is the final piece
    let piece = s.substring_char(i, n).to_owned();
    let ghost prev = r@;
    r.push(piece);
    proof {
        let t = s@.skip(i as int);
        assert forall|m: int| 0 <= m < t.len() implies t[m] != sep by {
            assert(t[m] == s@[i + m]);
        }
        lemma_split_on_whole(t, sep);
        assert(piece@ == t);
        assert(views_of(r@) =~= views_of(prev).push(piece@));
        assert(views_of(prev) + seq![piece@] =~= views_of(prev).push(piece@));
    }
    r
}

// ---------- lines ----------

/// A piece with one trailing carriage return removed.
pub open spec fn strip_cr(l: Seq<char>) -> Seq<char> {
    if l.len() > 0 && l.last() == '\r' {
        l.drop_last()
    } else {
        l
    }
}

/// What `str::lines` yields: the pieces between newlines, each stripped of
/// the carriage return that preceded its newline; a final piece without a
/// newline is kept as it stands, carriage return and all; a final empty piece
/// is dropped.
pub open spec fn lines_spec(s: Seq<char>) -> Seq<Seq<char>> {
    let ps = split_on(s, '\n');
    if ps.last().len() == 0 {
        ps.drop_last().map_values(|l: Seq<char>| strip_cr(l))
    } else {
        ps.drop_last().map_values(|l: Seq<char>| strip_cr(l)).push(ps.last())
    }
}

/// When the first newline stands at index `j`, the first line is what
/// precedes it, stripped, and the rest are the lines of what follows it.
proof fn lemma_lines_head(s: Seq<char>, j: int)
    requires
        0 <= j < s.len(),
        forall|m: int| 0 <= m < j ==> s[m] != '\n',
        s[j] == '\n',
    ensures
        lines_spec(s) == seq![strip_cr(s.take(j))] + lines_spec(s.skip(j + 1)),
{
    lemma_split_on_head(s, '\n', j);
    let ps = split_on(s.skip(j + 1), '\n');
    lemma_split_on_len(s.skip(j + 1), '\n');
    let all = split_on(s, '\n');
    assert(all == seq![s.take(j)] + ps);
    assert(all.last() == ps.last());
    assert(all.drop_last() =~= seq![s.take(j)] + ps.drop_last());
    assert(all.drop_last().map_values(|l: Seq<char>| strip_cr(l)) =~= seq![strip_cr(s.take(j))]
        + ps.drop_last().map_values(|l: Seq<char>| strip_cr(l)));
    if ps.last().len() == 0 {
        assert(lines_spec(s) =~= seq![strip_cr(s.take(j))] + lines_spec(s.skip(j + 1)));
    } else {
        assert((seq![strip_cr(s.take(j))] + ps.drop_last().map_values(
            |l: Seq<char>| strip_cr(l),
        )).push(ps.last()) =~= seq![strip_cr(s.take(j))] + ps.drop_last().map_values(
            |l: Seq<char>| strip_cr(l),
        ).push(ps.last()));
        assert(lines_spec(s) =~= seq![strip_cr(s.take(j))] + lines_spec(s.skip(j + 1)));
    }
}

/// A non-empty text without a newline is a single line, kept as it stands.
proof fn lemma_lines_whole(s: Seq<char>)
    requires
        s.len() > 0,
        forall|m: int| 0 <= m < s.len() ==> s[m] != '\n',
    ensures
        lines_spec(s) == seq![s],
{
    lemma_split_on_whole(s, '\n');
    let all = split_on(s, '\n');
    assert(all.last() == s);
    assert(all.drop_last() =~= Seq::<Seq<char>>::empty());
    assert(all.drop_last().map_values(|l: Seq<char>| strip_cr(l)) =~= Seq::<Seq<char>>::empty());
    assert(lines_spec(s) =~= seq![s]);
}

proof fn lemma_lines_empty()
    ensures
        lines_spec(Seq::<char>::empty()) == Seq::<Seq<char>>::empty(),
{
    let s = Seq::<char>::empty();
    let all = split_on(s, '\n');
    assert(all == seq![Seq::<char>::empty()]);
    assert(all.last().len() == 0);
    assert(all.drop_last() =~= Seq::<Seq<char>>::empty());
    assert(lines_spec(s) =~= Seq::<Seq<char>>::empty());
}

/// `str::lines`, with each line collected as an owned `String`.
#[verifier::loop_isolation(false)]
pub fn split_lines(s: &str) -> (r: Vec<String>)
    ensures
        views_of(r@) == lines_spec(s@),
{
    let n = s.unicode_len();
    let mut r: Vec<String> = Vec::new();
    let mut i: usize = 0;
    let mut j = scan_to_char(s, 0, '\n');
    proof {
        assert(views_of(r@) =~= Seq::<Seq<char>>::empty());
        assert(s@.skip(0) =~= s@);
    }
    while j < n
        invariant
            i <= j <= n,
            forall|m: int| i <= m < j ==> s@[m] != '\n',
            j < n ==> s@[j as int] == '\n',
            lines_spec(s@) == views_of(r@) + lines_spec(s@.skip(i as int)),
        decreases n - i,
    {
        // the piece before this newline, with a carriage return before the
        // newline stripped
        let e = if j > i && s.get_char(j - 1) == '\r' {
            j - 1
        } else {
            j
        };
        let piece = s.substring_char(i, e).to_owned();
        let ghost prev = r@;
        r.push(piece);
        proof {
            let t = s@.skip(i as int);
            let k = j - i;
            assert forall|m: int| 0 <= m < k implies t[m] != '\n' by {
                assert(t[m] == s@[i + m]);
            }
            assert(t[k as int] == s@[j as int]);
            lemma_lines_head(t, k as int);
            assert(t.take(k as int) =~= s@.subrange(i as int, j as int));
            assert(t.skip(k + 1) =~= s@.skip(j + 1));
            if j > i && s@[j - 1] == '\r' {
                assert(s@.subrange(i as int, j as int).last() == '\r');
                assert(s@.subrange(i as int, j as int).drop_last() =~= s@.subrange(
                    i as int,
                    e as int,
                ));
                assert(piece@ == strip_cr(s@.subrange(i as int, j as int)));
            } else {
                if j > i {
                    assert(s@.subrange(i as int, j as int).last() == s@[j - 1]);
                }
                assert(piece@ == strip_cr(s@.subrange(i as int, j as int)));
            }
            assert(views_of(r@) =~= views_of(prev).push(piece@));
            assert(views_of(prev) + (seq![piece@] + lines_spec(s@.skip(j + 1))) =~= views_of(
                prev,
            ).push(piece@) + lines_spec(s@.skip(j + 1)));
        }
        i = j + 1;
        j = scan_to_char(s, i, '\n');
    }
    if i < n {
        // a final line without a newline is kept as it stands
        let piece = s.substring_char(i, n).to_owned();
        let ghost prev = r@;
        r.push(piece);
        proof {
            let t = s@.skip(i as int);
            assert forall|m: int| 0 <= m < t.len() implies t[m] != '\n' by {
                assert(t[m] == s@[i + m]);
            }
            lemma_lines_whole(t);
            assert(piece@ =~= t);
            assert(views_of(r@) =~= views_of(prev).push(piece@));
            assert(views_of(prev) + seq![piece@] =~= views_of(prev).push(piece@));
        }
    } else {
        proof {
            assert(s@.skip(i as int) =~= Seq::<char>::empty());
            lemma_lines_empty();
            assert(views_of(r@) + lines_spec(s@.skip(i as int)) =~= views_of(r@));
        }
    }
    r
}

// ---------- exact string equality ----------

/// Character-for-character equality of two string slices.
#[verifier::loop_isolation(false)]
pub fn str_eq(a: &str, b: &str) -> (r: bool)
    ensures
        r == (a@ == b@),
{
    let na = a.unicode_len();
    let nb = b.unicode_len();
    if na != nb {
        return false;
    }
    let mut i: usize = 0;
    while i < na
        invariant
            i <= na,
            forall|m: int| 0 <= m < i ==> a@[m] == b@[m],
        decreases na - i,
    {
        if a.get_char(i) != b.get_char(i) {
            return false;
        }
        i += 1;
    }
    proof {
        assert(a@ =~= b@);
    }
    true
}

} // verus!
