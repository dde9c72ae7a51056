//! Character-level helpers: decimal rendering, clock timestamps,
//! whitespace handling and substring search.

use vstd::prelude::*;

verus! {

/// The ASCII digit for a value below ten.
pub open spec fn digit_char(d: nat) -> char {
    ((48 + d) as u32) as char
}

/// The decimal rendering of `n`, without sign or leading zeros.
pub open spec fn decimal(n: nat) -> Seq<char>
    decreases n,
{
    if n < 10 {
        seq![digit_char(n)]
    } else {
        decimal(n / 10).push(digit_char(n % 10))
    }
}

/// Appends a character to a string (`String::push`).
#[verifier::external_body]
pub(crate) fn push_char(s: &mut String, c: char)
    ensures
        final(s)@ == old(s)@.push(c),
{
    s.push(c);
}

fn digit(d: u128) -> (c: char)
    requires
        d < 10,
    ensures
        c == digit_char(d as nat),
{
    match d {
        0 => '0',
        1 => '1',
        2 => '2',
        3 => '3',
        4 => '4',
        5 => '5',
        6 => '6',
        7 => '7',
        8 => '8',
        _ => '9',
    }
}

/// Appends the decimal rendering of `n` to `out`.
pub fn push_decimal(out: &mut String, n: u128)
    ensures
        final(out)@ == old(out)@ + decimal(n as nat),
    decreases n,
{
    if n >= 10 {
        push_decimal(out, n / 10);
    }
    push_char(out, digit(n % 10));
    assert(out@ =~= old(out)@ + decimal(n as nat));
}

/// A number rendered with at least two digits, zero-padded (`{:02}`).
pub open spec fn two_digits(n: nat) -> Seq<char> {
    if n < 10 {
        seq!['0'] + decimal(n)
    } else {
        decimal(n)
    }
}

/// `HH:MM:SS` for a count of milliseconds; the hours are not wrapped at 24.
pub open spec fn clock_text(ms: nat) -> Seq<char> {
    let total_seconds = ms / 1000;
    two_digits(total_seconds / 3600) + seq![':'] + two_digits((total_seconds % 3600) / 60)
        + seq![':'] + two_digits(total_seconds % 60)
}

fn push_two_digits(out: &mut String, n: u64)
    ensures
        final(out)@ == old(out)@ + two_digits(n as nat),
{
    if n < 10 {
        push_char(out, '0');
    }
    push_decimal(out, n as u128);
    assert(out@ =~= old(out)@ + two_digits(n as nat));
}

/// Renders a count of milliseconds as `HH:MM:SS`, zero-padded, with whole seconds.
pub fn format_timestamp(ms: u64) -> (res: String)
    ensures
        res@ == clock_text(ms as nat),
{
    let total_seconds = ms / 1000;
    let hours = total_seconds / 3600;
    let minutes = (total_seconds % 3600) / 60;
    let seconds = total_seconds % 60;
    let mut out = String::new();
    push_two_digits(&mut out, hours);
    push_char(&mut out, ':');
    push_two_digits(&mut out, minutes);
    push_char(&mut out, ':');
    push_two_digits(&mut out, seconds);
    assert(out@ =~= clock_text(ms as nat));
    out
}

/// The text shown for a modification time: its decimal value, or `-` when unknown.
pub open spec fn modified_time_text(timestamp: Option<u64>) -> Seq<char> {
    match timestamp {
        Some(value) => decimal(value as nat),
        None => seq!['-'],
    }
}

/// Renders an optional modification timestamp (milliseconds since the epoch).
pub fn format_modified_time(timestamp: Option<u64>) -> (res: String)
    ensures
        res@ == modified_time_text(timestamp),
{
    let mut out = String::new();
    match timestamp {
        Some(value) => push_decimal(&mut out, value as u128),
        None => push_char(&mut out, '-'),
    }
    assert(out@ =~= modified_time_text(timestamp));
    out
}

} // verus!

verus! {

/// The characters of a string slice, in order.
pub fn chars_of(s: &str) -> (v: Vec<char>)
    ensures
        v@ == s@,
{
    broadcast use vstd::string::group_string_axioms;
    let mut v: Vec<char> = Vec::new();
    for c in it: s.chars()
        invariant
            it.seq() == s@,
            v@ == it.seq().take(it.index() as int),
    {
        v.push(c);
    }
    v
}

} // verus!

verus! {

/// Unicode `White_Space`, the property that `char::is_whitespace` tests.
pub open spec fn is_space(c: char) -> bool {
    let u = c as u32;
    (0x09 <= u && u <= 0x0d) || u == 0x20 || u == 0x85 || u == 0xa0 || u == 0x1680 || (0x2000
        <= u && u <= 0x200a) || u == 0x2028 || u == 0x2029 || u == 0x202f || u == 0x205f || u
        == 0x3000
}

/// The characters with the Unicode `White_Space` property, listed one by one.
pub open spec fn white_space_listed(c: char) -> bool {
    c == '\t' || c == '\n' || c == '\u{b}' || c == '\u{c}' || c == '\r' || c == ' ' || c
        == '\u{85}' || c == '\u{a0}' || c == '\u{1680}' || c == '\u{2000}' || c == '\u{2001}' || c
        == '\u{2002}' || c == '\u{2003}' || c == '\u{2004}' || c == '\u{2005}' || c == '\u{2006}'
        || c == '\u{2007}' || c == '\u{2008}' || c == '\u{2009}' || c == '\u{200a}' || c
        == '\u{2028}' || c == '\u{2029}' || c == '\u{202f}' || c == '\u{205f}' || c == '\u{3000}'
}

/// Law: white space is exactly the twenty-five `White_Space` characters: tab,
/// line feed, vertical tab, form feed, carriage return, space, next line,
/// no-break space, ogham space mark, the spaces U+2000 to U+200A, line and
/// paragraph separators, narrow no-break space, medium mathematical space and
/// ideographic space.
pub proof fn lemma_space_is_white_space(c: char)
    ensures
        is_space(c) <==> white_space_listed(c),
{
    let u = c as u32;
    if 0x2000 <= u && u <= 0x200a {
        assert(c == '\u{2000}' || c == '\u{2001}' || c == '\u{2002}' || c == '\u{2003}' || c
            == '\u{2004}' || c == '\u{2005}' || c == '\u{2006}' || c == '\u{2007}' || c == '\u{2008}'
            || c == '\u{2009}' || c == '\u{200a}');
    }
    if 0x09 <= u && u <= 0x0d {
        assert(c == '\t' || c == '\n' || c == '\u{b}' || c == '\u{c}' || c == '\r');
    }
}

/// Whether a character is Unicode white space.
pub fn is_space_char(c: char) -> (b: bool)
    ensures
        b == is_space(c),
        b <==> white_space_listed(c),
{
    proof {
        lemma_space_is_white_space(c);
    }
    let u = c as u32;
    (0x09 <= u && u <= 0x0d) || u == 0x20 || u == 0x85 || u == 0xa0 || u == 0x1680 || (0x2000
        <= u && u <= 0x200a) || u == 0x2028 || u == 0x2029 || u == 0x202f || u == 0x205f || u
        == 0x3000
}

/// `s` without its leading white space.
pub open spec fn trim_start(s: Seq<char>) -> Seq<char>
    decreases s.len(),
{
    if s.len() > 0 && is_space(s[0]) {
        trim_start(s.drop_first())
    } else {
        s
    }
}

/// `s` without its trailing white space.
pub open spec fn trim_end(s: Seq<char>) -> Seq<char>
    decreases s.len(),
{
    if s.len() > 0 && is_space(s.last()) {
        trim_end(s.drop_last())
    } else {
        s
    }
}

/// `s` without leading and trailing white space (`str::trim`).
pub open spec fn trim(s: Seq<char>) -> Seq<char> {
    trim_end(trim_start(s))
}

/// The characters of `s` with leading and trailing white space removed.
pub fn trim_chars(s: &Vec<char>) -> (r: Vec<char>)
    ensures
        r@ == trim(s@),
{
    let n = s.len();
    let mut i: usize = 0;
    assert(s@.subrange(0, n as int) =~= s@);
    while i < n && is_space_char(s[i])
        invariant
            i <= n,
            n == s@.len(),
            trim_start(s@) == trim_start(s@.subrange(i as int, n as int)),
        decreases n - i,
    {
        assert(s@.subrange(i as int, n as int).drop_first() =~= s@.subrange(i + 1, n as int));
        i = i + 1;
    }
    assert(trim_start(s@.subrange(i as int, n as int)) == s@.subrange(i as int, n as int));
    let mut j: usize = n;
    while j > i && is_space_char(s[j - 1])
        invariant
            i <= j <= n,
            n == s@.len(),
            trim(s@) == trim_end(s@.subrange(i as int, j as int)),
        decreases j,
    {
        assert(s@.subrange(i as int, j as int).drop_last() =~= s@.subrange(i as int, j - 1));
        j = j - 1;
    }
    let mut r: Vec<char> = Vec::new();
    let mut k: usize = i;
    while k < j
        invariant
            i <= k <= j <= n,
            n == s@.len(),
            r@ == s@.subrange(i as int, k as int),
        decreases j - k,
    {
        r.push(s[k]);
        assert(r@ =~= s@.subrange(i as int, k + 1));
        k = k + 1;
    }
    r
}

/// The white-space separated words of `s`, in order (`str::split_whitespace`).
pub open spec fn words(s: Seq<char>) -> Seq<Seq<char>>
    decreases s.len(),
{
    if s.len() == 0 {
        seq![]
    } else {
        let prev = words(s.drop_last());
        let c = s.last();
        if is_space(c) {
            prev
        } else if s.len() > 1 && !is_space(s[s.len() - 2]) {
            prev.update(prev.len() - 1, prev.last().push(c))
        } else {
            prev.push(seq![c])
        }
    }
}

/// Words joined with one space between neighbours.
pub open spec fn join_words(ws: Seq<Seq<char>>) -> Seq<char>
    decreases ws.len(),
{
    if ws.len() == 0 {
        seq![]
    } else if ws.len() == 1 {
        ws[0]
    } else {
        join_words(ws.drop_last()) + seq![' '] + ws.last()
    }
}

/// A caption's text with every run of white space turned into one space and
/// no white space at either end.
pub open spec fn normalized(s: Seq<char>) -> Seq<char> {
    join_words(words(s))
}

proof fn lemma_join_extend_last(ws: Seq<Seq<char>>, c: char)
    requires
        ws.len() > 0,
    ensures
        join_words(ws.update(ws.len() - 1, ws.last().push(c))) == join_words(ws).push(c),
{
    let up = ws.update(ws.len() - 1, ws.last().push(c));
    if ws.len() == 1 {
        assert(join_words(up) == up[0]);
    } else {
        assert(up.drop_last() =~= ws.drop_last());
        assert(join_words(up) =~= join_words(ws).push(c));
    }
}

proof fn lemma_words_nonempty(s: Seq<char>)
    requires
        s.len() > 0,
        !is_space(s.last()),
    ensures
        words(s).len() > 0,
    decreases s.len(),
{
    if s.len() > 1 && !is_space(s[s.len() - 2]) {
        let t = s.drop_last();
        assert(t.last() == s[s.len() - 2]);
        lemma_words_nonempty(t);
    }
}

/// Collapses white space in a caption's text (`split_whitespace` joined by spaces).
pub fn normalize_caption_text(text: &str) -> (res: String)
    ensures
        res@ == normalized(text@),
        well_spaced(res@),
        forall|i: int|
            0 <= i < res@.len() && white_space_listed(#[trigger] res@[i]) ==> res@[i] == ' ',
{
    proof {
        lemma_normalized_well_spaced(text@);
        assert forall|i: int| 0 <= i < normalized(text@).len() && white_space_listed(
            #[trigger] normalized(text@)[i],
        ) implies normalized(text@)[i] == ' ' by {
            lemma_space_is_white_space(normalized(text@)[i]);
        }
    }
    let s = chars_of(text);
    let n = s.len();
    let mut out = String::new();
    let mut i: usize = 0;
    let mut in_word = false;
    let mut any_word = false;
    while i < n
        invariant
            i <= n,
            n == s@.len(),
            out@ == join_words(words(s@.take(i as int))),
            in_word == (i > 0 && !is_space(s@[i - 1])),
            any_word == (words(s@.take(i as int)).len() > 0),
        decreases n - i,
    {
        let c = s[i];
        let ghost t = s@.take(i + 1);
        assert(t.drop_last() =~= s@.take(i as int));
        proof {
            if i > 0 {
                assert(t[t.len() - 2] == s@[i - 1]);
            }
        }
        if is_space_char(c) {
            in_word = false;
        } else if in_word {
            proof {
                lemma_words_nonempty(s@.take(i as int));
                lemma_join_extend_last(words(s@.take(i as int)), c);
            }
            push_char(&mut out, c);
        } else {
            let ghost prev = words(s@.take(i as int));
            if any_word {
                push_char(&mut out, ' ');
            }
            push_char(&mut out, c);
            proof {
                if prev.len() == 0 {
                    assert(join_words(prev.push(seq![c])) == seq![c]);
                } else {
                    assert(prev.push(seq![c]).drop_last() =~= prev);
                }
            }
            in_word = true;
            any_word = true;
        }
        i = i + 1;
    }
    assert(s@.take(n as int) =~= s@);
    out
}

} // verus!

verus! {

/// `needle` occurs in `hay` as a contiguous run of characters.
pub open spec fn has_substring(hay: Seq<char>, needle: Seq<char>) -> bool {
    exists|i: int|
        0 <= i && i + needle.len() <= hay.len() && #[trigger] hay.subrange(i, i + needle.len())
            == needle
}

fn matches_at(hay: &Vec<char>, needle: &Vec<char>, i: usize) -> (b: bool)
    requires
        i + needle@.len() <= hay@.len(),
    ensures
        b == (hay@.subrange(i as int, i + needle@.len()) == needle@),
{
    let m = needle.len();
    let mut k: usize = 0;
    while k < m
        invariant
            k <= m,
            m == needle@.len(),
            i + m <= hay.len(),
            hay@.subrange(i as int, i + k) == needle@.take(k as int),
        decreases m - k,
    {
        if hay[i + k] != needle[k] {
            assert(hay@.subrange(i as int, i + m)[k as int] != needle@[k as int]);
            return false;
        }
        assert(hay@.subrange(i as int, i + k + 1) =~= needle@.take(k + 1));
        k = k + 1;
    }
    assert(needle@.take(m as int) =~= needle@);
    true
}

/// Whether `needle` occurs in `hay` (`str::contains`).
pub fn contains_text(hay: &str, needle: &str) -> (b: bool)
    ensures
        b == has_substring(hay@, needle@),
{
    let h = chars_of(hay);
    let nd = chars_of(needle);
    if nd.len() > h.len() {
        return false;
    }
    let last = h.len() - nd.len();
    let mut i: usize = 0;
    loop
        invariant
            i <= last,
            last + nd@.len() == h@.len(),
            h@ == hay@,
            nd@ == needle@,
            forall|j: int| 0 <= j < i ==> #[trigger] h@.subrange(j, j + nd@.len()) != nd@,
        decreases last + 1 - i,
    {
        if matches_at(&h, &nd, i) {
            return true;
        }
        if i == last {
            assert forall|j: int|
                0 <= j && j + needle@.len() <= hay@.len() implies #[trigger] hay@.subrange(
                j,
                j + needle@.len(),
            ) != needle@ by {}
            return false;
        }
        i = i + 1;
    }
}

/// The lower-case form of a text under Unicode case mapping, as
/// `str::to_lowercase` computes it.
pub uninterp spec fn lowercase(s: Seq<char>) -> Seq<char>;

/// `str::to_lowercase`: the result is `lowercase` of the argument; how each
/// character is mapped is left to the standard library.
#[verifier::external_body]
fn to_lowercase(s: &str) -> (res: String)
    ensures
        res@ == lowercase(s@),
{
    s.to_lowercase()
}

/// A text holds one of the words `caption`, `subtitle`, `recognize`.
pub open spec fn has_caption_word(s: Seq<char>) -> bool {
    has_substring(s, "caption"@) || has_substring(s, "subtitle"@) || has_substring(s, "recognize"@)
}

/// A text mentions captions when, lower-cased, it holds `caption`, `subtitle`
/// or `recognize`.
pub open spec fn mentions_caption(s: Seq<char>) -> bool {
    has_caption_word(lowercase(s))
}

/// Whether a (lower-cased) text holds `caption`, `subtitle` or `recognize`.
pub fn holds_caption_word(lower: &str) -> (b: bool)
    ensures
        b == has_caption_word(lower@),
{
    contains_text(lower, "caption") || contains_text(lower, "subtitle") || contains_text(
        lower,
        "recognize",
    )
}

/// Whether a text mentions captions, subtitles or speech recognition.
pub fn mentions_caption_text(s: &str) -> (b: bool)
    ensures
        b == mentions_caption(s@),
{
    let lower = to_lowercase(s);
    holds_caption_word(lower.as_str())
}

} // verus!

verus! {

/// A string holding the given characters.
pub fn string_of(chars: &Vec<char>) -> (s: String)
    ensures
        s@ == chars@,
{
    let mut s = String::new();
    let n = chars.len();
    let mut i: usize = 0;
    while i < n
        invariant
            i <= n,
            n == chars@.len(),
            s@ == chars@.take(i as int),
        decreases n - i,
    {
        push_char(&mut s, chars[i]);
        assert(s@ =~= chars@.take(i + 1));
        i = i + 1;
    }
    assert(chars@.take(n as int) =~= chars@);
    s
}

/// Trimming never lengthens a text.
pub proof fn lemma_trim_shorter(s: Seq<char>)
    ensures
        trim(s).len() <= s.len(),
{
    lemma_trim_start_shorter(s);
    lemma_trim_end_shorter(trim_start(s));
}

proof fn lemma_trim_start_shorter(s: Seq<char>)
    ensures
        trim_start(s).len() <= s.len(),
    decreases s.len(),
{
    if s.len() > 0 && is_space(s[0]) {
        lemma_trim_start_shorter(s.drop_first());
    }
}

proof fn lemma_trim_end_shorter(s: Seq<char>)
    ensures
        trim_end(s).len() <= s.len(),
    decreases s.len(),
{
    if s.len() > 0 && is_space(s.last()) {
        lemma_trim_end_shorter(s.drop_last());
    }
}

} // verus!

verus! {

/// A word: not empty, and without white space.
pub open spec fn clean_word(w: Seq<char>) -> bool {
    w.len() > 0 && forall|j: int| 0 <= j < w.len() ==> !is_space(#[trigger] w[j])
}

/// No white space but single spaces, each between two other characters.
pub open spec fn well_spaced(s: Seq<char>) -> bool {
    forall|i: int|
        0 <= i < s.len() && #[trigger] is_space(s[i]) ==> s[i] == ' ' && 0 < i < s.len() - 1
            && !is_space(s[i - 1]) && !is_space(s[i + 1])
}

proof fn lemma_words_clean(s: Seq<char>)
    ensures
        forall|k: int| 0 <= k < words(s).len() ==> clean_word(#[trigger] words(s)[k]),
    decreases s.len(),
{
    if s.len() > 0 {
        let t = s.drop_last();
        let c = s.last();
        lemma_words_clean(t);
        let prev = words(t);
        if !is_space(c) {
            if s.len() > 1 && !is_space(s[s.len() - 2]) {
                assert(t.last() == s[s.len() - 2]);
                lemma_words_nonempty(t);
                let w = prev.last().push(c);
                assert(clean_word(prev[prev.len() - 1]));
                assert(clean_word(w));
            } else {
                assert(clean_word(seq![c]));
            }
        }
    }
}

proof fn lemma_join_well_spaced(ws: Seq<Seq<char>>)
    requires
        forall|k: int| 0 <= k < ws.len() ==> clean_word(#[trigger] ws[k]),
    ensures
        well_spaced(join_words(ws)),
        ws.len() > 0 ==> {
            let j = join_words(ws);
            &&& j.len() > 0
            &&& !is_space(j[0])
            &&& !is_space(j.last())
        },
    decreases ws.len(),
{
    if ws.len() == 1 {
        assert(clean_word(ws[0]));
    } else if ws.len() > 1 {
        let d = ws.drop_last();
        let w = ws.last();
        assert(clean_word(ws[ws.len() - 1]));
        lemma_join_well_spaced(d);
        let jd = join_words(d);
        let j = join_words(ws);
        assert(j == jd + seq![' '] + w);
        assert forall|i: int| 0 <= i < j.len() && #[trigger] is_space(j[i]) implies j[i] == ' '
            && 0 < i < j.len() - 1 && !is_space(j[i - 1]) && !is_space(j[i + 1]) by {
            if i < jd.len() {
                assert(j[i] == jd[i]);
                assert(is_space(jd[i]));
                assert(j[i - 1] == jd[i - 1]);
                assert(j[i + 1] == jd[i + 1]);
            } else if i == jd.len() {
                assert(j[i - 1] == jd.last());
                assert(j[i + 1] == w[0]);
            } else {
                assert(j[i] == w[i - jd.len() - 1]);
            }
        }
        assert(j[0] == jd[0]);
        assert(j.last() == w.last());
    }
}

/// Law: normalized text has no white space but single spaces between words,
/// none at either end.
pub proof fn lemma_normalized_well_spaced(s: Seq<char>)
    ensures
        well_spaced(normalized(s)),
{
    lemma_words_clean(s);
    lemma_join_well_spaced(words(s));
}

proof fn lemma_well_spaced_fixed(r: Seq<char>)
    requires
        well_spaced(r),
    ensures
        normalized(r) == r,
    decreases r.len(),
{
    if r.len() > 0 {
        let t = r.drop_last();
        let c = r.last();
        if is_space(c) {
            assert(is_space(r[r.len() - 1]));
        }
        assert(!is_space(c));
        if t.len() == 0 {
            assert(words(t) =~= Seq::<Seq<char>>::empty());
            assert(words(r) =~= seq![seq![c]]);
            assert(normalized(r) =~= r);
        } else if !is_space(t.last()) {
            assert(t.last() == r[r.len() - 2]);
            assert forall|i: int| 0 <= i < t.len() && #[trigger] is_space(t[i]) implies t[i] == ' '
                && 0 < i < t.len() - 1 && !is_space(t[i - 1]) && !is_space(t[i + 1]) by {
                assert(t[i] == r[i]);
                assert(is_space(r[i]));
                assert(t[i - 1] == r[i - 1]);
                assert(r[i + 1] == t[i + 1]);
            }
            lemma_well_spaced_fixed(t);
            lemma_words_nonempty(t);
            lemma_join_extend_last(words(t), c);
            assert(normalized(r) =~= r);
        } else {
            assert(is_space(r[r.len() - 2]));
            let u = t.drop_last();
            assert(u.len() > 0);
            assert(u.last() == r[r.len() - 3]);
            assert(!is_space(u.last()));
            assert forall|i: int| 0 <= i < u.len() && #[trigger] is_space(u[i]) implies u[i] == ' '
                && 0 < i < u.len() - 1 && !is_space(u[i - 1]) && !is_space(u[i + 1]) by {
                assert(u[i] == r[i]);
                assert(is_space(r[i]));
                assert(u[i - 1] == r[i - 1]);
                assert(r[i + 1] == u[i + 1]);
            }
            lemma_well_spaced_fixed(u);
            assert(t.drop_last() == u);
            assert(words(t) == words(u));
            lemma_words_nonempty(u);
            let ws = words(u).push(seq![c]);
            assert(words(r) == ws);
            assert(ws.drop_last() =~= words(u));
            assert(r =~= u + seq![' '] + seq![c]);
            assert(t[t.len() - 1] == ' ');
        }
    }
}

/// Law: normalizing a caption's text twice gives the same text as once.
pub proof fn lemma_normalize_idempotent(s: Seq<char>)
    ensures
        normalized(normalized(s)) == normalized(s),
{
    lemma_normalized_well_spaced(s);
    lemma_well_spaced_fixed(normalized(s));
}

} // verus!

verus! {

proof fn lemma_two_digits_len(n: nat)
    requires
        n < 100,
    ensures
        two_digits(n).len() == 2,
{
    if n >= 10 {
        assert(decimal(n / 10).len() == 1);
    }
}

/// Law: below one hundred hours a clock time is eight characters, `HH:MM:SS`,
/// with the colons in place and minutes and seconds below sixty.
pub proof fn lemma_clock_shape(ms: nat)
    requires
        ms < 360_000_000,
    ensures
        clock_text(ms).len() == 8,
        clock_text(ms)[2] == ':',
        clock_text(ms)[5] == ':',
        ((ms / 1000) % 3600) / 60 < 60,
        (ms / 1000) % 60 < 60,
{
    let total = ms / 1000;
    assert(total < 360_000);
    assert(total / 3600 < 100);
    lemma_two_digits_len(total / 3600);
    lemma_two_digits_len((total % 3600) / 60);
    lemma_two_digits_len(total % 60);
}

} // verus!

verus! {

proof fn lemma_trim_start_bound(s: Seq<char>) -> (a: int)
    ensures
        0 <= a <= s.len(),
        trim_start(s) == s.subrange(a, s.len() as int),
        forall|i: int| 0 <= i < a ==> is_space(#[trigger] s[i]),
        a < s.len() ==> !is_space(s[a]),
    decreases s.len(),
{
    if s.len() > 0 && is_space(s[0]) {
        let b = lemma_trim_start_bound(s.drop_first());
        assert forall|i: int| 0 <= i < b + 1 implies is_space(#[trigger] s[i]) by {
            if i > 0 {
                assert(s[i] == s.drop_first()[i - 1]);
            }
        }
        assert(s.drop_first().subrange(b, s.drop_first().len() as int) =~= s.subrange(
            b + 1,
            s.len() as int,
        ));
        if b + 1 < s.len() {
            assert(s[b + 1] == s.drop_first()[b]);
        }
        b + 1
    } else {
        assert(s.subrange(0, s.len() as int) =~= s);
        0
    }
}

proof fn lemma_trim_end_bound(s: Seq<char>) -> (b: int)
    ensures
        0 <= b <= s.len(),
        trim_end(s) == s.subrange(0, b),
        forall|i: int| b <= i < s.len() ==> is_space(#[trigger] s[i]),
        b > 0 ==> !is_space(s[b - 1]),
    decreases s.len(),
{
    if s.len() > 0 && is_space(s.last()) {
        let b = lemma_trim_end_bound(s.drop_last());
        assert forall|i: int| b <= i < s.len() implies is_space(#[trigger] s[i]) by {
            if i < s.len() - 1 {
                assert(s[i] == s.drop_last()[i]);
            }
        }
        assert(s.drop_last().subrange(0, b) =~= s.subrange(0, b));
        if b > 0 {
            assert(s[b - 1] == s.drop_last()[b - 1]);
        }
        b
    } else {
        assert(s.subrange(0, s.len() as int) =~= s);
        s.len() as int
    }
}

/// Law: trimming keeps a contiguous run of the text: everything before it and
/// after it is white space, and the run neither starts nor ends with white
/// space. The result is the bounds of the run.
pub proof fn lemma_trim_bounds(s: Seq<char>) -> (r: (int, int))
    ensures
        0 <= r.0 <= r.1 <= s.len(),
        trim(s) == s.subrange(r.0, r.1),
        forall|i: int| 0 <= i < r.0 ==> is_space(#[trigger] s[i]),
        forall|i: int| r.1 <= i < s.len() ==> is_space(#[trigger] s[i]),
        r.0 < r.1 ==> !is_space(s[r.0]) && !is_space(s[r.1 - 1]),
{
    let a = lemma_trim_start_bound(s);
    let t = trim_start(s);
    let b = lemma_trim_end_bound(t);
    assert(t.subrange(0, b) =~= s.subrange(a, a + b));
    assert forall|i: int| a + b <= i < s.len() implies is_space(#[trigger] s[i]) by {
        assert(s[i] == t[i - a]);
    }
    if b > 0 {
        assert(s[a + b - 1] == t[b - 1]);
        assert(s[a] == t[0]);
        if a < s.len() {
        }
    }
    (a, a + b)
}

} // verus!
