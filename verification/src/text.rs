//! Character-level string helpers with their specifications.
//!
//! Strings are modelled by their view, a `Seq<char>`. Every helper here is
//! specified over that view; the few calls into std that vstd does not
//! specify are single-call wrappers.
use vstd::prelude::*;

verus! {

broadcast use vstd::string::group_string_axioms;

// ---------------------------------------------------------------------------
// Character classes
// ---------------------------------------------------------------------------

/// Unicode `White_Space`, the property that `char::is_whitespace` tests
/// (and so `str::trim` and `str::split_whitespace`).
pub open spec fn is_ws(c: char) -> bool {
    let u = c as u32;
    ||| 0x09 <= u <= 0x0D
    ||| u == 0x20
    ||| u == 0x85
    ||| u == 0xA0
    ||| u == 0x1680
    ||| 0x2000 <= u <= 0x200A
    ||| u == 0x2028
    ||| u == 0x2029
    ||| u == 0x202F
    ||| u == 0x205F
    ||| u == 0x3000
}

/// `char::is_ascii_alphanumeric`.
pub open spec fn is_ascii_alnum(c: char) -> bool {
    ||| ('0' <= c && c <= '9')
    ||| ('a' <= c && c <= 'z')
    ||| ('A' <= c && c <= 'Z')
}

/// `char::to_ascii_lowercase`: `A`..`Z` become `a`..`z`, everything else is kept.
pub open spec fn ascii_lower(c: char) -> char {
    if 'A' <= c && c <= 'Z' {
        ((c as u32) + 32) as char
    } else {
        c
    }
}

/// The ASCII-lowercased sequence.
pub open spec fn lower_seq(s: Seq<char>) -> Seq<char> {
    s.map_values(|c: char| ascii_lower(c))
}

pub fn is_whitespace(c: char) -> (b: bool)
    ensures
        b == is_ws(c),
{
    let u = c as u32;
    (0x09 <= u && u <= 0x0D) || u == 0x20 || u == 0x85 || u == 0xA0 || u == 0x1680 || (0x2000
        <= u && u <= 0x200A) || u == 0x2028 || u == 0x2029 || u == 0x202F || u == 0x205F || u
        == 0x3000
}

pub fn is_alnum(c: char) -> (b: bool)
    ensures
        b == is_ascii_alnum(c),
{
    ('0' <= c && c <= '9') || ('a' <= c && c <= 'z') || ('A' <= c && c <= 'Z')
}

pub fn to_lower(c: char) -> (r: char)
    ensures
        r == ascii_lower(c),
{
    if 'A' <= c && c <= 'Z' {
        let b = (c as u32) as u8;
        let r = (b + 32) as char;
        assert(r == ((c as u32) + 32) as char) by {
            assert(r as u32 == (c as u32) + 32);
        }
        r
    } else {
        c
    }
}

/// A set of delimiter characters: Unicode whitespace, or one given character.
#[derive(Clone, Copy)]
pub enum Delim {
    Whitespace,
    Char(char),
}

impl Delim {
    pub open spec fn has(self, c: char) -> bool {
        match self {
            Delim::Whitespace => is_ws(c),
            Delim::Char(d) => c == d,
        }
    }

    pub fn contains(&self, c: char) -> (b: bool)
        ensures
            b == self.has(c),
    {
        match self {
            Delim::Whitespace => is_whitespace(c),
            Delim::Char(d) => c == *d,
        }
    }
}

// ---------------------------------------------------------------------------
// Building strings
// ---------------------------------------------------------------------------

/// Appends one character to a string: `String::push` from std.
/// Trusted: the new contents are the old contents followed by `c`.
#[verifier::external_body]
pub(crate) fn push_char(s: &mut String, c: char)
    ensures
        final(s)@ == old(s)@.push(c),
{
    s.push(c);
}

/// The characters of `s`, in order.
pub fn chars_of(s: &str) -> (v: Vec<char>)
    ensures
        v@ == s@,
{
    let mut v: Vec<char> = Vec::new();
    for c in it: s.chars()
        invariant
            v@ == it.seq().take(it.index()),
    {
        v.push(c);
    }
    v
}

/// Appends `v[lo..hi]` to `out`.
pub fn push_range(out: &mut String, v: &Vec<char>, lo: usize, hi: usize)
    requires
        lo <= hi <= v@.len(),
    ensures
        final(out)@ == old(out)@ + v@.subrange(lo as int, hi as int),
{
    let mut i = lo;
    while i < hi
        invariant
            lo <= i <= hi <= v@.len(),
            out@ == old(out)@ + v@.subrange(lo as int, i as int),
        decreases hi - i,
    {
        push_char(out, v[i]);
        assert(v@.subrange(lo as int, i + 1) =~= v@.subrange(lo as int, i as int).push(v@[i as int]));
        i += 1;
    }
}

/// A new string holding `v[lo..hi]`.
pub fn string_of_range(v: &Vec<char>, lo: usize, hi: usize) -> (r: String)
    requires
        lo <= hi <= v@.len(),
    ensures
        r@ == v@.subrange(lo as int, hi as int),
{
    let mut r = String::new();
    push_range(&mut r, v, lo, hi);
    assert(r@ =~= v@.subrange(lo as int, hi as int));
    r
}

/// A copy of `s`.
pub fn string_of(s: &str) -> (r: String)
    ensures
        r@ == s@,
{
    String::from_str(s)
}

// ---------------------------------------------------------------------------
// Trimming
// ---------------------------------------------------------------------------

/// `s` without its leading characters of class `d`.
pub open spec fn skip_leading(s: Seq<char>, d: Delim) -> Seq<char>
    decreases s.len(),
{
    if s.len() > 0 && d.has(s[0]) {
        skip_leading(s.drop_first(), d)
    } else {
        s
    }
}

/// `s` without its trailing characters of class `d`.
pub open spec fn skip_trailing(s: Seq<char>, d: Delim) -> Seq<char>
    decreases s.len(),
{
    if s.len() > 0 && d.has(s.last()) {
        skip_trailing(s.drop_last(), d)
    } else {
        s
    }
}

/// `s` without leading and trailing characters of class `d`
/// (`str::trim` for whitespace, `str::trim_matches(ch)` for one character).
pub open spec fn trim_seq(s: Seq<char>, d: Delim) -> Seq<char> {
    skip_trailing(skip_leading(s, d), d)
}

/// What trimming leaves: a contiguous part of `s` that starts with a
/// character outside `d` (or is empty).
pub proof fn lemma_skip_leading(s: Seq<char>, d: Delim) -> (k: int)
    ensures
        0 <= k <= s.len(),
        skip_leading(s, d) == s.subrange(k, s.len() as int),
        skip_leading(s, d).len() > 0 ==> !d.has(skip_leading(s, d)[0]),
        forall|j: int| 0 <= j < k ==> d.has(#[trigger] s[j]),
    decreases s.len(),
{
    if s.len() > 0 && d.has(s[0]) {
        let k0 = lemma_skip_leading(s.drop_first(), d);
        assert(s.drop_first().subrange(k0, s.drop_first().len() as int) =~= s.subrange(
            k0 + 1,
            s.len() as int,
        ));
        assert forall|j: int| 0 <= j < k0 + 1 implies d.has(#[trigger] s[j]) by {
            if j > 0 {
                assert(s[j] == s.drop_first()[j - 1]);
            }
        }
        k0 + 1
    } else {
        assert(s.subrange(0, s.len() as int) =~= s);
        0
    }
}

/// What trimming the end leaves: a prefix of `s` that ends with a character
/// outside `d` (or is empty).
pub proof fn lemma_skip_trailing(s: Seq<char>, d: Delim) -> (k: int)
    ensures
        0 <= k <= s.len(),
        skip_trailing(s, d) == s.take(k),
        skip_trailing(s, d).len() > 0 ==> !d.has(skip_trailing(s, d).last()),
        forall|j: int| k <= j < s.len() ==> d.has(#[trigger] s[j]),
    decreases s.len(),
{
    if s.len() > 0 && d.has(s.last()) {
        let k0 = lemma_skip_trailing(s.drop_last(), d);
        assert(s.drop_last().take(k0) =~= s.take(k0));
        assert forall|j: int| k0 <= j < s.len() implies d.has(#[trigger] s[j]) by {
            if j < s.len() - 1 {
                assert(s[j] == s.drop_last()[j]);
            }
        }
        k0
    } else {
        assert(s.take(s.len() as int) =~= s);
        s.len() as int
    }
}

/// Trimming leaves `s` alone when it neither starts nor ends with `d`.
pub proof fn lemma_trim_clean(s: Seq<char>, d: Delim)
    requires
        s.len() > 0 ==> !d.has(s[0]) && !d.has(s.last()),
    ensures
        trim_seq(s, d) == s,
{
}

/// Index of the first character of `v` at or after `lo` that is not in `d`
/// (or `v.len()`).
fn first_kept(v: &Vec<char>, d: Delim) -> (i: usize)
    ensures
        i <= v@.len(),
        skip_leading(v@, d) == v@.subrange(i as int, v@.len() as int),
{
    let n = v.len();
    let mut i: usize = 0;
    assert(v@.subrange(0, n as int) =~= v@);
    while i < n && d.contains(v[i])
        invariant
            i <= n == v@.len(),
            skip_leading(v@, d) == skip_leading(v@.subrange(i as int, n as int), d),
        decreases n - i,
    {
        assert(v@.subrange(i as int, n as int).drop_first() =~= v@.subrange(i + 1, n as int));
        i += 1;
    }
    i
}

/// One past the index of the last character of `v[lo..hi]` not in `d` (or `lo`).
fn last_kept(v: &Vec<char>, d: Delim, lo: usize, hi: usize) -> (j: usize)
    requires
        lo <= hi <= v@.len(),
    ensures
        lo <= j <= hi,
        skip_trailing(v@.subrange(lo as int, hi as int), d) == v@.subrange(lo as int, j as int),
{
    let mut j = hi;
    while j > lo && d.contains(v[j - 1])
        invariant
            lo <= j <= hi <= v@.len(),
            skip_trailing(v@.subrange(lo as int, hi as int), d) == skip_trailing(
                v@.subrange(lo as int, j as int),
                d,
            ),
        decreases j - lo,
    {
        assert(v@.subrange(lo as int, j as int).drop_last() =~= v@.subrange(lo as int, j - 1));
        j -= 1;
    }
    j
}

/// `s` trimmed of the class `d` at both ends.
pub fn trim(s: &str, d: Delim) -> (r: String)
    ensures
        r@ == trim_seq(s@, d),
{
    let v = chars_of(s);
    let i = first_kept(&v, d);
    let j = last_kept(&v, d, i, v.len());
    string_of_range(&v, i, j)
}

/// `s` trimmed of the class `d` at its end only (`str::trim_end_matches`).
pub fn trim_end(s: &str, d: Delim) -> (r: String)
    ensures
        r@ == skip_trailing(s@, d),
{
    let v = chars_of(s);
    assert(v@.subrange(0, v@.len() as int) =~= v@);
    let j = last_kept(&v, d, 0, v.len());
    string_of_range(&v, 0, j)
}

// ---------------------------------------------------------------------------
// Splitting
// ---------------------------------------------------------------------------

/// The maximal non-empty runs of characters outside `d`, scanning `s` with
/// `cur` the run collected so far (`str::split_whitespace` for whitespace;
/// `split(ch)` with the empty pieces dropped for one character).
pub open spec fn fields_from(s: Seq<char>, d: Delim, cur: Seq<char>) -> Seq<Seq<char>>
    decreases s.len(),
{
    if s.len() == 0 {
        if cur.len() > 0 {
            seq![cur]
        } else {
            seq![]
        }
    } else if d.has(s[0]) {
        (if cur.len() > 0 {
            seq![cur]
        } else {
            seq![]
        }) + fields_from(s.drop_first(), d, seq![])
    } else {
        fields_from(s.drop_first(), d, cur.push(s[0]))
    }
}

pub open spec fn fields(s: Seq<char>, d: Delim) -> Seq<Seq<char>> {
    fields_from(s, d, seq![])
}

/// Scanning with a run `cur` of non-delimiters yields fields that are all
/// non-empty and free of delimiters.
#[verifier::rlimit(40)]
proof fn lemma_fields_from_clean(s: Seq<char>, d: Delim, cur: Seq<char>)
    requires
        forall|j: int| 0 <= j < cur.len() ==> !d.has(#[trigger] cur[j]),
    ensures
        forall|i: int|
            0 <= i < fields_from(s, d, cur).len() ==> (#[trigger] fields_from(s, d, cur)[i]).len()
                > 0,
        forall|i: int, j: int|
            0 <= i < fields_from(s, d, cur).len() && 0 <= j < fields_from(s, d, cur)[i].len()
                ==> !d.has(#[trigger] fields_from(s, d, cur)[i][j]),
    decreases s.len(),
{
    if s.len() == 0 {
        if cur.len() > 0 {
            assert(fields_from(s, d, cur) =~= seq![cur]);
            assert(fields_from(s, d, cur)[0] == cur);
            assert(fields_from(s, d, cur).len() == 1);
        } else {
            assert(fields_from(s, d, cur) =~= Seq::<Seq<char>>::empty());
        }
    } else if d.has(s[0]) {
        lemma_fields_from_clean(s.drop_first(), d, seq![]);
        let head: Seq<Seq<char>> = if cur.len() > 0 {
            seq![cur]
        } else {
            seq![]
        };
        let rest = fields_from(s.drop_first(), d, seq![]);
        assert(fields_from(s, d, cur) == head + rest);
        assert forall|i: int| 0 <= i < (head + rest).len() implies (#[trigger] (head + rest)[i]).len()
            > 0 by {
            if i >= head.len() {
                assert((head + rest)[i] == rest[i - head.len()]);
            } else {
                assert((head + rest)[i] == cur);
            }
        }
        assert forall|i: int, j: int|
            0 <= i < (head + rest).len() && 0 <= j < (head + rest)[i].len() implies !d.has(
            #[trigger] (head + rest)[i][j],
        ) by {
            if i >= head.len() {
                assert((head + rest)[i] == rest[i - head.len()]);
            } else {
                assert((head + rest)[i] == cur);
            }
        }
    } else {
        let c2 = cur.push(s[0]);
        assert forall|j: int| 0 <= j < c2.len() implies !d.has(#[trigger] c2[j]) by {
            if j < cur.len() {
                assert(c2[j] == cur[j]);
            }
        }
        lemma_fields_from_clean(s.drop_first(), d, c2);
        assert(fields_from(s, d, cur) == fields_from(s.drop_first(), d, c2));
    }
}

/// Every field is non-empty and holds no delimiter.
pub proof fn lemma_fields_clean(s: Seq<char>, d: Delim)
    ensures
        forall|i: int| 0 <= i < fields(s, d).len() ==> (#[trigger] fields(s, d)[i]).len() > 0,
        forall|i: int, j: int|
            0 <= i < fields(s, d).len() && 0 <= j < fields(s, d)[i].len() ==> !d.has(
                #[trigger] fields(s, d)[i][j],
            ),
{
    lemma_fields_from_clean(s, d, seq![]);
}

/// A trailing delimiter adds no field.
pub proof fn lemma_fields_trailing_delim(a: Seq<char>, x: char, d: Delim, cur: Seq<char>)
    requires
        d.has(x),
    ensures
        fields_from(a.push(x), d, cur) == fields_from(a, d, cur),
    decreases a.len(),
{
    if a.len() == 0 {
        assert(a.push(x).drop_first() =~= Seq::<char>::empty());
        assert(fields_from(Seq::<char>::empty(), d, seq![]) =~= Seq::<Seq<char>>::empty());
        let head: Seq<Seq<char>> = if cur.len() > 0 {
            seq![cur]
        } else {
            seq![]
        };
        assert(head + Seq::<Seq<char>>::empty() =~= head);
    } else {
        assert(a.push(x)[0] == a[0]);
        assert(a.push(x).drop_first() =~= a.drop_first().push(x));
        if d.has(a[0]) {
            lemma_fields_trailing_delim(a.drop_first(), x, d, seq![]);
        } else {
            lemma_fields_trailing_delim(a.drop_first(), x, d, cur.push(a[0]));
        }
    }
}

/// Fields split at a delimiter: scanning `a + b`, where `a` ends with a
/// delimiter (or is empty with no run pending), gives the fields of `a` and
/// then those of `b`.
#[verifier::rlimit(40)]
pub proof fn lemma_fields_append(a: Seq<char>, b: Seq<char>, d: Delim, cur: Seq<char>)
    requires
        (a.len() > 0 && d.has(a.last())) || (a.len() == 0 && cur.len() == 0),
    ensures
        fields_from(a + b, d, cur) == fields_from(a, d, cur) + fields(b, d),
    decreases a.len(),
{
    if a.len() == 0 {
        assert(a + b =~= b);
        assert(cur =~= Seq::<char>::empty());
        assert(fields_from(a, d, cur) =~= Seq::<Seq<char>>::empty());
        assert(Seq::<Seq<char>>::empty() + fields(b, d) =~= fields(b, d));
    } else {
        assert((a + b)[0] == a[0]);
        assert((a + b).drop_first() =~= a.drop_first() + b);
        if a.len() > 1 {
            assert(a.drop_first().last() == a.last());
        }
        if d.has(a[0]) {
            lemma_fields_append(a.drop_first(), b, d, seq![]);
            let head: Seq<Seq<char>> = if cur.len() > 0 {
                seq![cur]
            } else {
                seq![]
            };
            assert(head + (fields_from(a.drop_first(), d, seq![]) + fields(b, d)) =~= (head
                + fields_from(a.drop_first(), d, seq![])) + fields(b, d));
            assert(fields_from(a + b, d, cur) == head + fields_from(a.drop_first() + b, d, seq![]));
            assert(fields_from(a, d, cur) == head + fields_from(a.drop_first(), d, seq![]));
        } else {
            assert(a.len() > 1);
            assert(a.drop_first().last() == a.last());
            lemma_fields_append(a.drop_first(), b, d, cur.push(a[0]));
            assert(fields_from(a + b, d, cur) == fields_from(a.drop_first() + b, d, cur.push(a[0])));
            assert(fields_from(a, d, cur) == fields_from(a.drop_first(), d, cur.push(a[0])));
        }
    }
}

/// A run of non-delimiters is one field (with the pending run in front).
pub proof fn lemma_fields_of_run(c: Seq<char>, d: Delim, cur: Seq<char>)
    requires
        forall|j: int| 0 <= j < c.len() ==> !d.has(#[trigger] c[j]),
        (cur + c).len() > 0,
    ensures
        fields_from(c, d, cur) == seq![cur + c],
    decreases c.len(),
{
    if c.len() == 0 {
        assert(cur + c =~= cur);
    } else {
        assert(!d.has(c[0]));
        assert(cur.push(c[0]) + c.drop_first() =~= cur + c);
        assert forall|j: int| 0 <= j < c.drop_first().len() implies !d.has(
            #[trigger] c.drop_first()[j],
        ) by {
            assert(c.drop_first()[j] == c[j + 1]);
        }
        lemma_fields_of_run(c.drop_first(), d, cur.push(c[0]));
    }
}

/// The view of an optional string.
pub open spec fn opt_view(o: Option<String>) -> Option<Seq<char>> {
    match o {
        Some(s) => Some(s@),
        None => None,
    }
}

/// The views of a vector of strings.
pub open spec fn views(v: Seq<String>) -> Seq<Seq<char>> {
    v.map_values(|x: String| x@)
}

/// The non-empty fields of `s` separated by characters of `d`.
#[verifier::rlimit(40)]
pub fn split_fields(s: &str, d: Delim) -> (r: Vec<String>)
    ensures
        views(r@) == fields(s@, d),
{
    let v = chars_of(s);
    let n = v.len();
    let mut out: Vec<String> = Vec::new();
    let mut cur = String::new();
    let mut i: usize = 0;
    assert(v@.skip(0) =~= v@);
    while i < n
        invariant
            i <= n == v@.len(),
            fields(s@, d) == views(out@) + fields_from(v@.skip(i as int), d, cur@),
            v@ == s@,
        decreases n - i,
    {
        let c = v[i];
        let ghost rest = v@.skip(i as int);
        let ghost rest2 = v@.skip(i + 1);
        assert(rest[0] == c);
        assert(rest.drop_first() =~= rest2);
        if d.contains(c) {
            if !cur.as_str().is_empty() {
                let ghost old_out = views(out@);
                let ghost old_cur = cur@;
                let done = cur;
                out.push(done);
                assert(views(out@) =~= old_out + seq![old_cur]);
                cur = String::new();
                assert(old_out + (seq![old_cur] + fields_from(rest2, d, seq![])) =~= views(out@)
                    + fields_from(rest2, d, cur@));
            } else {
                assert(cur@ =~= Seq::<char>::empty());
                assert(views(out@) + (Seq::<Seq<char>>::empty() + fields_from(rest2, d, seq![]))
                    =~= views(out@) + fields_from(rest2, d, cur@));
            }
        } else {
            push_char(&mut cur, c);
        }
        i += 1;
    }
    if !cur.as_str().is_empty() {
        let ghost old_out = out@;
        out.push(cur);
        assert(views(out@) =~= views(old_out) + seq![views(out@).last()]);
    }
    assert(fields(s@, d) =~= views(out@));
    out
}

/// All pieces of `s` between occurrences of `ch`, empty pieces included
/// (`str::split(ch)`), scanning with `cur` the piece collected so far.
pub open spec fn pieces_from(s: Seq<char>, ch: char, cur: Seq<char>) -> Seq<Seq<char>>
    decreases s.len(),
{
    if s.len() == 0 {
        seq![cur]
    } else if s[0] == ch {
        seq![cur] + pieces_from(s.drop_first(), ch, seq![])
    } else {
        pieces_from(s.drop_first(), ch, cur.push(s[0]))
    }
}

pub open spec fn pieces(s: Seq<char>, ch: char) -> Seq<Seq<char>> {
    pieces_from(s, ch, seq![])
}

/// Splitting always yields at least one piece.
pub proof fn lemma_pieces_nonempty(s: Seq<char>, ch: char)
    ensures
        pieces(s, ch).len() > 0,
{
    lemma_pieces_from_nonempty(s, ch, seq![]);
}

proof fn lemma_pieces_from_nonempty(s: Seq<char>, ch: char, cur: Seq<char>)
    ensures
        pieces_from(s, ch, cur).len() > 0,
    decreases s.len(),
{
    if s.len() > 0 {
        if s[0] == ch {
            lemma_pieces_from_nonempty(s.drop_first(), ch, seq![]);
        } else {
            lemma_pieces_from_nonempty(s.drop_first(), ch, cur.push(s[0]));
        }
    }
}

/// Every piece of `s` between occurrences of `ch`, empty ones included.
#[verifier::rlimit(40)]
pub fn split_pieces(s: &str, ch: char) -> (r: Vec<String>)
    ensures
        views(r@) == pieces(s@, ch),
{
    let v = chars_of(s);
    let n = v.len();
    let mut out: Vec<String> = Vec::new();
    let mut cur = String::new();
    let mut i: usize = 0;
    assert(v@.skip(0) =~= v@);
    while i < n
        invariant
            i <= n == v@.len(),
            pieces(s@, ch) == views(out@) + pieces_from(v@.skip(i as int), ch, cur@),
            v@ == s@,
        decreases n - i,
    {
        let c = v[i];
        let ghost rest = v@.skip(i as int);
        let ghost rest2 = v@.skip(i + 1);
        assert(rest[0] == c);
        assert(rest.drop_first() =~= rest2);
        if c == ch {
            let ghost old_out = views(out@);
            let ghost old_cur = cur@;
            let done = cur;
            out.push(done);
            assert(views(out@) =~= old_out + seq![old_cur]);
            cur = String::new();
            assert(old_out + (seq![old_cur] + pieces_from(rest2, ch, seq![])) =~= views(out@)
                + pieces_from(rest2, ch, cur@));
        } else {
            push_char(&mut cur, c);
        }
        i += 1;
    }
    let ghost old_out = views(out@);
    out.push(cur);
    assert(views(out@) =~= old_out + seq![views(out@).last()]);
    assert(pieces(s@, ch) =~= views(out@));
    out
}

/// The ASCII-lowercased copy of `s` (`str::to_ascii_lowercase`).
pub fn ascii_lowercase(s: &str) -> (r: String)
    ensures
        r@ == lower_seq(s@),
{
    let v = chars_of(s);
    let mut out = String::new();
    let mut i: usize = 0;
    while i < v.len()
        invariant
            i <= v@.len(),
            v@ == s@,
            out@ == lower_seq(v@.take(i as int)),
        decreases v@.len() - i,
    {
        push_char(&mut out, to_lower(v[i]));
        assert(lower_seq(v@.take(i + 1)) =~= lower_seq(v@.take(i as int)).push(ascii_lower(v@[i as int])));
        i += 1;
    }
    assert(v@.take(v@.len() as int) =~= v@);
    out
}

// ---------------------------------------------------------------------------
// Comparing
// ---------------------------------------------------------------------------

/// Equality of two string slices by their characters.
pub fn str_eq(a: &str, b: &str) -> (r: bool)
    ensures
        r == (a@ == b@),
{
    let x = String::from_str(a);
    let y = String::from_str(b);
    x == y
}

/// `p` occurs in `s` at index `i`.
pub open spec fn occurs_at(s: Seq<char>, p: Seq<char>, i: int) -> bool {
    0 <= i && i + p.len() <= s.len() && s.subrange(i, i + p.len()) == p
}

/// `p` occurs somewhere in `s` (`str::contains`).
pub open spec fn has_substr(s: Seq<char>, p: Seq<char>) -> bool {
    exists|i: int| occurs_at(s, p, i)
}

/// `s` starts with `p` (`str::starts_with`).
pub open spec fn has_prefix(s: Seq<char>, p: Seq<char>) -> bool {
    p.len() <= s.len() && s.take(p.len() as int) == p
}

/// Whether `p` occurs in `v` at index `i` (all in bounds).
fn matches_at(v: &Vec<char>, p: &Vec<char>, i: usize) -> (r: bool)
    requires
        i + p@.len() <= v.len(),
    ensures
        r == occurs_at(v@, p@, i as int),
{
    let m = p.len();
    let mut k: usize = 0;
    while k < m
        invariant
            k <= m == p@.len(),
            i + m <= v.len(),
            forall|t: int| 0 <= t < k ==> v@[i + t] == p@[t],
        decreases m - k,
    {
        if v[i + k] != p[k] {
            assert(v@.subrange(i as int, i + m)[k as int] != p@[k as int]);
            return false;
        }
        k += 1;
    }
    assert(v@.subrange(i as int, i + m) =~= p@);
    true
}

/// Whether `p` occurs in `s`.
pub fn contains_str(s: &str, p: &str) -> (r: bool)
    ensures
        r == has_substr(s@, p@),
{
    let v = chars_of(s);
    let w = chars_of(p);
    if w.len() > v.len() {
        return false;
    }
    let last = v.len() - w.len();
    let mut i: usize = 0;
    while i <= last
        invariant
            last + w@.len() == v@.len(),
            v@ == s@,
            w@ == p@,
            forall|j: int| 0 <= j < i ==> !occurs_at(v@, w@, j),
        decreases last + 1 - i,
    {
        if matches_at(&v, &w, i) {
            return true;
        }
        if i == last {
            assert forall|j: int| !occurs_at(v@, w@, j) by {
                if occurs_at(v@, w@, j) {
                    assert(j <= last);
                }
            }
            return false;
        }
        i += 1;
    }
    false
}

/// Whether `s` starts with `p`.
pub fn starts_with_str(s: &str, p: &str) -> (r: bool)
    ensures
        r == has_prefix(s@, p@),
{
    let v = chars_of(s);
    let w = chars_of(p);
    if w.len() > v.len() {
        return false;
    }
    let r = matches_at(&v, &w, 0);
    assert(v@.subrange(0, w@.len() as int) =~= v@.take(w@.len() as int));
    r
}

/// Lexicographic order on characters by code point; this is the order of
/// the UTF-8 bytes, which is how std orders `str`, `OsStr` and paths that
/// share a parent.
pub open spec fn lex_lt(a: Seq<char>, b: Seq<char>) -> bool
    decreases a.len(),
{
    if a.len() == 0 {
        b.len() > 0
    } else if b.len() == 0 {
        false
    } else if a[0] != b[0] {
        (a[0] as u32) < (b[0] as u32)
    } else {
        lex_lt(a.drop_first(), b.drop_first())
    }
}

/// The order is transitive.
pub proof fn lemma_lex_lt_transitive(a: Seq<char>, b: Seq<char>, c: Seq<char>)
    requires
        lex_lt(a, b),
        lex_lt(b, c),
    ensures
        lex_lt(a, c),
    decreases a.len(),
{
    if a.len() > 0 && b.len() > 0 && c.len() > 0 && a[0] == b[0] && b[0] == c[0] {
        lemma_lex_lt_transitive(a.drop_first(), b.drop_first(), c.drop_first());
    }
}

/// The order is irreflexive.
pub proof fn lemma_lex_lt_irreflexive(a: Seq<char>)
    ensures
        !lex_lt(a, a),
    decreases a.len(),
{
    if a.len() > 0 {
        lemma_lex_lt_irreflexive(a.drop_first());
    }
}

/// Strings are ordered from their first character: after a common prefix
/// `p`, the first differing character decides, whatever follows it.
pub proof fn law_lex_lt_first_difference(
    p: Seq<char>,
    x: char,
    y: char,
    s: Seq<char>,
    t: Seq<char>,
)
    requires
        (x as u32) < (y as u32),
    ensures
        lex_lt(p + seq![x] + s, p + seq![y] + t),
        !lex_lt(p + seq![y] + t, p + seq![x] + s),
    decreases p.len(),
{
    let a = p + seq![x] + s;
    let b = p + seq![y] + t;
    if p.len() == 0 {
        assert(a[0] == x);
        assert(b[0] == y);
    } else {
        assert(a[0] == p[0]);
        assert(b[0] == p[0]);
        law_lex_lt_first_difference(p.drop_first(), x, y, s, t);
        assert(a.drop_first() =~= p.drop_first() + seq![x] + s);
        assert(b.drop_first() =~= p.drop_first() + seq![y] + t);
    }
}

/// A proper prefix sorts before the longer string, and never after it.
pub proof fn law_lex_lt_prefix_first(p: Seq<char>, s: Seq<char>)
    requires
        s.len() > 0,
    ensures
        lex_lt(p, p + s),
        !lex_lt(p + s, p),
    decreases p.len(),
{
    if p.len() > 0 {
        law_lex_lt_prefix_first(p.drop_first(), s);
        assert((p + s).drop_first() =~= p.drop_first() + s);
        assert((p + s)[0] == p[0]);
    }
}

/// Whether `a` sorts strictly before `b`.
pub fn str_lt(a: &str, b: &str) -> (r: bool)
    ensures
        r == lex_lt(a@, b@),
{
    let v = chars_of(a);
    let w = chars_of(b);
    let mut i: usize = 0;
    assert(v@.skip(0) =~= v@);
    assert(w@.skip(0) =~= w@);
    while i < v.len() && i < w.len() && v[i] == w[i]
        invariant
            i <= v@.len(),
            i <= w@.len(),
            lex_lt(a@, b@) == lex_lt(v@.skip(i as int), w@.skip(i as int)),
            v@ == a@,
            w@ == b@,
        decreases v@.len() - i,
    {
        assert(v@.skip(i as int).drop_first() =~= v@.skip(i + 1));
        assert(w@.skip(i as int).drop_first() =~= w@.skip(i + 1));
        i += 1;
    }
    if i == v.len() {
        i < w.len()
    } else if i == w.len() {
        false
    } else {
        (v[i] as u32) < (w[i] as u32)
    }
}

// ---------------------------------------------------------------------------
// Decimal numbers
// ---------------------------------------------------------------------------

/// The decimal digit for `d < 10`.
pub open spec fn digit_char(d: nat) -> char {
    if d == 0 {
        '0'
    } else if d == 1 {
        '1'
    } else if d == 2 {
        '2'
    } else if d == 3 {
        '3'
    } else if d == 4 {
        '4'
    } else if d == 5 {
        '5'
    } else if d == 6 {
        '6'
    } else if d == 7 {
        '7'
    } else if d == 8 {
        '8'
    } else {
        '9'
    }
}

/// The decimal rendering of `n` with no leading zeros (`Display` for integers).
pub open spec fn decimal(n: nat) -> Seq<char>
    decreases n,
{
    if n < 10 {
        seq![digit_char(n)]
    } else {
        decimal(n / 10).push(digit_char(n % 10))
    }
}

fn digit(d: u64) -> (c: char)
    requires
        d < 10,
    ensures
        c == digit_char(d as nat),
{
    if d == 0 {
        '0'
    } else if d == 1 {
        '1'
    } else if d == 2 {
        '2'
    } else if d == 3 {
        '3'
    } else if d == 4 {
        '4'
    } else if d == 5 {
        '5'
    } else if d == 6 {
        '6'
    } else if d == 7 {
        '7'
    } else if d == 8 {
        '8'
    } else {
        '9'
    }
}

/// Appends the decimal rendering of `n` to `out`.
pub fn push_decimal(out: &mut String, n: u64)
    ensures
        final(out)@ == old(out)@ + decimal(n as nat),
    decreases n,
{
    if n >= 10 {
        push_decimal(out, n / 10);
    }
    push_char(out, digit(n % 10));
    assert(decimal(n as nat) == if n < 10 {
        seq![digit_char(n as nat)]
    } else {
        decimal((n / 10) as nat).push(digit_char((n % 10) as nat))
    });
    if n < 10 {
        assert(out@ =~= old(out)@ + decimal(n as nat));
    } else {
        assert(out@ =~= old(out)@ + decimal(n as nat));
    }
}

/// `c` is one of `0`..`9`.
pub open spec fn is_digit(c: char) -> bool {
    '0' <= c && c <= '9'
}

/// The value of a digit character.
pub open spec fn digit_value(c: char) -> nat {
    ((c as u32) - ('0' as u32)) as nat
}

/// The number written by a run of decimal digits (0 for the empty run).
pub open spec fn digits_value(s: Seq<char>) -> nat
    decreases s.len(),
{
    if s.len() == 0 {
        0
    } else {
        digits_value(s.drop_last()) * 10 + digit_value(s.last())
    }
}

pub open spec fn all_digits(s: Seq<char>) -> bool {
    forall|i: int| 0 <= i < s.len() ==> is_digit(#[trigger] s[i])
}

/// `u16::from_str` (std's `from_str_radix` with radix 10): an optional `+`
/// followed by at least one decimal digit, whose value must fit in a `u16`.
pub open spec fn parse_u16_spec(s: Seq<char>) -> Option<u16> {
    let d = if s.len() > 0 && s[0] == '+' {
        s.drop_first()
    } else {
        s
    };
    if d.len() > 0 && all_digits(d) && digits_value(d) <= 0xFFFF {
        Some(digits_value(d) as u16)
    } else {
        None
    }
}

/// Parses `s` as a `u16` the way `str::parse::<u16>` does.
#[verifier::rlimit(40)]
pub fn parse_u16(s: &str) -> (r: Option<u16>)
    ensures
        r == parse_u16_spec(s@),
{
    let v = chars_of(s);
    let n = v.len();
    let start: usize = if n > 0 && v[0] == '+' {
        1
    } else {
        0
    };
    let ghost d = v@.subrange(start as int, n as int);
    assert(d =~= if s@.len() > 0 && s@[0] == '+' {
        s@.drop_first()
    } else {
        s@
    });
    if start == n {
        return None;
    }
    let mut acc: u32 = 0;
    let mut i = start;
    while i < n
        invariant
            start <= i <= n == v@.len(),
            v@ == s@,
            d == v@.subrange(start as int, n as int),
            d == (if s@.len() > 0 && s@[0] == '+' {
                s@.drop_first()
            } else {
                s@
            }),
            all_digits(v@.subrange(start as int, i as int)),
            acc as nat == if digits_value(v@.subrange(start as int, i as int)) <= 0x10000 {
                digits_value(v@.subrange(start as int, i as int))
            } else {
                0x10000
            },
        decreases n - i,
    {
        let c = v[i];
        let ghost pre = v@.subrange(start as int, i as int);
        let ghost next = v@.subrange(start as int, i + 1);
        assert(next.drop_last() =~= pre);
        assert(next.last() == c);
        if !('0' <= c && c <= '9') {
            assert(d[i - start] == c);
            assert(!all_digits(d));
            return None;
        }
        let dv = (c as u32) - ('0' as u32);
        let t = acc * 10 + dv;
        acc = if t > 0x10000 {
            0x10000
        } else {
            t
        };
        assert forall|k: int| 0 <= k < next.len() implies is_digit(#[trigger] next[k]) by {
            if k < pre.len() {
                assert(next[k] == pre[k]);
            }
        }
        i += 1;
    }
    assert(v@.subrange(start as int, n as int) == d);
    if acc > 0xFFFF {
        None
    } else {
        Some(acc as u16)
    }
}

/// `digit_char(d)` is the digit of value `d`.
pub proof fn lemma_digit_char(d: nat)
    requires
        d < 10,
    ensures
        is_digit(digit_char(d)),
        digit_value(digit_char(d)) == d,
{
    assert(('0' as u32) == 48);
    assert(('9' as u32) == 57);
    assert(('5' as u32) == 53);
}

/// The digits of `decimal(n)` are digits and spell `n`.
pub proof fn lemma_decimal_digits(n: nat)
    ensures
        all_digits(decimal(n)),
        digits_value(decimal(n)) == n,
        decimal(n).len() > 0,
        decimal(n)[0] != '+',
    decreases n,
{
    lemma_digit_char(n % 10);
    if n < 10 {
        assert(decimal(n) =~= seq![digit_char(n)]);
        assert(decimal(n).drop_last() =~= Seq::<char>::empty());
        assert(digits_value(decimal(n)) == digits_value(decimal(n).drop_last()) * 10 + digit_value(decimal(n).last()));
    } else {
        lemma_decimal_digits(n / 10);
        let s = decimal(n);
        assert(s.drop_last() =~= decimal(n / 10));
        assert forall|i: int| 0 <= i < s.len() implies is_digit(#[trigger] s[i]) by {
            if i < s.len() - 1 {
                assert(s[i] == decimal(n / 10)[i]);
            }
        }
        assert(s[0] == decimal(n / 10)[0]);
        assert(s.last() == digit_char(n % 10));
        assert(digits_value(s) == digits_value(decimal(n / 10)) * 10 + digit_value(s.last()));
        assert((n / 10) * 10 + n % 10 == n);
    }
}

/// Whether one of `v` has the characters of `s`.
pub fn contains_string(v: &Vec<String>, s: &str) -> (r: bool)
    ensures
        r == views(v@).contains(s@),
{
    let target = String::from_str(s);
    let mut i: usize = 0;
    while i < v.len()
        invariant
            i <= v@.len(),
            target@ == s@,
            forall|j: int| 0 <= j < i ==> views(v@)[j] != s@,
        decreases v@.len() - i,
    {
        if v[i] == target {
            assert(views(v@)[i as int] == s@);
            return true;
        }
        i += 1;
    }
    assert forall|j: int| 0 <= j < views(v@).len() implies views(v@)[j] != s@ by {}
    false
}

// ---------------------------------------------------------------------------
// UTF-8 lengths
// ---------------------------------------------------------------------------

/// Bytes in the UTF-8 encoding of `c` (`char::len_utf8`).
pub open spec fn utf8_width(c: char) -> nat {
    let u = c as u32;
    if u < 0x80 {
        1
    } else if u < 0x800 {
        2
    } else if u < 0x10000 {
        3
    } else {
        4
    }
}

/// Bytes in the UTF-8 encoding of `s` (`str::len`).
pub open spec fn utf8_len(s: Seq<char>) -> nat
    decreases s.len(),
{
    if s.len() == 0 {
        0
    } else {
        utf8_len(s.drop_last()) + utf8_width(s.last())
    }
}

pub fn char_width(c: char) -> (w: usize)
    ensures
        w == utf8_width(c),
{
    let u = c as u32;
    if u < 0x80 {
        1
    } else if u < 0x800 {
        2
    } else if u < 0x10000 {
        3
    } else {
        4
    }
}

/// A longer prefix never has a shorter encoding.
pub proof fn lemma_utf8_len_prefix(s: Seq<char>, k: int)
    requires
        0 <= k <= s.len(),
    ensures
        utf8_len(s.take(k)) <= utf8_len(s),
    decreases s.len(),
{
    if k < s.len() {
        assert(s.drop_last().take(k) =~= s.take(k));
        lemma_utf8_len_prefix(s.drop_last(), k);
    } else {
        assert(s.take(k) =~= s);
    }
}

/// Encoded lengths add up over concatenation.
pub proof fn lemma_utf8_len_concat(a: Seq<char>, b: Seq<char>)
    ensures
        utf8_len(a + b) == utf8_len(a) + utf8_len(b),
    decreases b.len(),
{
    if b.len() == 0 {
        assert(a + b =~= a);
    } else {
        assert((a + b).drop_last() =~= a + b.drop_last());
        assert((a + b).last() == b.last());
        lemma_utf8_len_concat(a, b.drop_last());
    }
}

/// `utf8_len` agrees with vstd's UTF-8 encoding, so it is the byte length
/// that std reports for a string.
pub proof fn lemma_utf8_len_encoding(s: Seq<char>)
    ensures
        utf8_len(s) == vstd::utf8::encode_utf8(s).len(),
    decreases s.len(),
{
    if s.len() > 0 {
        lemma_utf8_len_encoding(s.drop_first());
        lemma_utf8_len_front(s);
        vstd::utf8::char_is_scalar(s[0]);
    }
}

/// `utf8_len` can be taken from the front as well.
proof fn lemma_utf8_len_front(s: Seq<char>)
    requires
        s.len() > 0,
    ensures
        utf8_len(s) == utf8_width(s[0]) + utf8_len(s.drop_first()),
    decreases s.len(),
{
    if s.len() > 1 {
        lemma_utf8_len_front(s.drop_last());
        assert(s.drop_last().drop_first() =~= s.drop_first().drop_last());
        assert(s.drop_last()[0] == s[0]);
        assert(s.drop_first().last() == s.last());
        assert(utf8_len(s.drop_first()) == utf8_len(s.drop_first().drop_last()) + utf8_width(
            s.drop_first().last(),
        ));
        assert(utf8_len(s) == utf8_len(s.drop_last()) + utf8_width(s.last()));
    } else {
        assert(s.drop_first().len() == 0);
        assert(s.drop_last().len() == 0);
        assert(utf8_len(s.drop_first()) == 0);
        assert(utf8_len(s.drop_last()) == 0);
        assert(utf8_len(s) == utf8_len(s.drop_last()) + utf8_width(s.last()));
        assert(s.last() == s[0]);
    }
}

} // verus!
