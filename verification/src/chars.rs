//! Character sequences: splitting, searching and replacing.

use vstd::prelude::*;

verus! {

/// The lowercase form that `str::to_lowercase` gives of a text.
pub uninterp spec fn unicode_lowercase(s: Seq<char>) -> Seq<char>;

/// The lowercase form of a text: on ASCII text the letters `A`-`Z` lowered
/// (which is what Unicode's lowercase mapping does to ASCII), otherwise what
/// `str::to_lowercase` gives.
pub open spec fn lowercase(s: Seq<char>) -> Seq<char> {
    if is_ascii_seq(s) {
        ascii_lower_seq(s)
    } else {
        unicode_lowercase(s)
    }
}

pub open spec fn is_ascii_char(c: char) -> bool {
    (c as u32) < 128
}

pub open spec fn is_ascii_seq(s: Seq<char>) -> bool {
    forall|i: int| 0 <= i < s.len() ==> is_ascii_char(#[trigger] s[i])
}

/// ASCII lowercase of one character; other characters stay as they are.
pub open spec fn ascii_lower(c: char) -> char {
    if 'A' <= c && c <= 'Z' {
        ((c as u32) + 32) as char
    } else {
        c
    }
}

pub open spec fn ascii_lower_seq(s: Seq<char>) -> Seq<char> {
    s.map_values(|c: char| ascii_lower(c))
}

/// Two texts are equal when ASCII letters are compared without case.
pub open spec fn eq_ignore_ascii_case(a: Seq<char>, b: Seq<char>) -> bool {
    a.len() == b.len() && forall|i: int| 0 <= i < a.len() ==> ascii_lower(#[trigger] a[i]) == ascii_lower(b[i])
}

/// The characters with the Unicode `White_Space` property.
pub open spec fn unicode_white_space(c: char) -> bool {
    let n = c as u32;
    ||| 0x09 <= n <= 0x0D
    ||| n == 0x20
    ||| n == 0x85
    ||| n == 0xA0
    ||| n == 0x1680
    ||| 0x2000 <= n <= 0x200A
    ||| n == 0x2028
    ||| n == 0x2029
    ||| n == 0x202F
    ||| n == 0x205F
    ||| n == 0x3000
}

/// The pieces of `s` between occurrences of `sep`, as `str::split` gives them.
pub open spec fn split_spec(s: Seq<char>, sep: char) -> Seq<Seq<char>>
    decreases s.len(),
{
    if s.len() == 0 {
        seq![Seq::<char>::empty()]
    } else {
        let p = split_spec(s.drop_last(), sep);
        if s.last() == sep {
            p.push(Seq::<char>::empty())
        } else {
            p.update(p.len() - 1, p.last().push(s.last()))
        }
    }
}

/// The words of `s`: maximal runs of characters that are not white space,
/// as `str::split_whitespace` gives them. `cur` is the word being read.
pub open spec fn words_from(s: Seq<char>, cur: Seq<char>) -> Seq<Seq<char>>
    decreases s.len(),
{
    if s.len() == 0 {
        if cur.len() == 0 { seq![] } else { seq![cur] }
    } else if unicode_white_space(s[0]) {
        if cur.len() == 0 {
            words_from(s.drop_first(), cur)
        } else {
            seq![cur] + words_from(s.drop_first(), Seq::<char>::empty())
        }
    } else {
        words_from(s.drop_first(), cur.push(s[0]))
    }
}

pub open spec fn words(s: Seq<char>) -> Seq<Seq<char>> {
    words_from(s, Seq::<char>::empty())
}

/// `needle` occurs in `hay` at position `i`.
pub open spec fn occurs_at(hay: Seq<char>, needle: Seq<char>, i: int) -> bool {
    0 <= i && i + needle.len() <= hay.len() && hay.subrange(i, i + needle.len()) == needle
}

pub open spec fn contains_spec(hay: Seq<char>, needle: Seq<char>) -> bool {
    exists|i: int| occurs_at(hay, needle, i)
}

pub open spec fn starts_with_spec(s: Seq<char>, prefix: Seq<char>) -> bool {
    prefix.len() <= s.len() && s.take(prefix.len() as int) == prefix
}

/// `s` with every occurrence of `pat` (searched from the left, not
/// overlapping) replaced by `rep`, as `str::replace` gives it.
pub open spec fn replace_spec(s: Seq<char>, pat: Seq<char>, rep: Seq<char>) -> Seq<char>
    decreases s.len(),
{
    if pat.len() == 0 || s.len() < pat.len() {
        s
    } else if s.take(pat.len() as int) == pat {
        rep + replace_spec(s.skip(pat.len() as int), pat, rep)
    } else {
        seq![s[0]] + replace_spec(s.drop_first(), pat, rep)
    }
}

/// The views of a sequence of character vectors.
pub open spec fn seqs_of(v: Seq<Vec<char>>) -> Seq<Seq<char>> {
    v.map_values(|x: Vec<char>| x@)
}

/// Calls `str::chars` and collects the characters.
#[verifier::external_body]
pub(crate) fn chars_of(s: &str) -> (r: Vec<char>)
    ensures
        r@ == s@,
{
    s.chars().collect()
}

/// Calls `String::from_iter` on the characters.
#[verifier::external_body]
pub(crate) fn string_of(v: &[char]) -> (r: String)
    ensures
        r@ == v@,
{
    v.iter().collect()
}

/// Calls `str::to_lowercase`. Claimed: the result is the name
/// `unicode_lowercase` of the text.
#[verifier::external_body]
fn unicode_to_lowercase(s: &str) -> (r: String)
    ensures
        r@ == unicode_lowercase(s@),
{
    s.to_lowercase()
}

/// The lowercase form of a text.
pub fn to_lowercase(s: &str) -> (r: String)
    ensures
        r@ == lowercase(s@),
{
    let cs = chars_of(s);
    let mut i: usize = 0;
    while i < cs.len()
        invariant
            i <= cs.len(),
            cs@ == s@,
            forall|k: int| 0 <= k < i ==> is_ascii_char(#[trigger] cs@[k]),
        decreases cs.len() - i,
    {
        if (cs[i] as u32) >= 128 {
            assert(!is_ascii_char(cs@[i as int]));
            return unicode_to_lowercase(s);
        }
        i = i + 1;
    }
    let mut out: Vec<char> = Vec::new();
    let mut j: usize = 0;
    while j < cs.len()
        invariant
            j <= cs.len(),
            out@ =~= ascii_lower_seq(cs@.take(j as int)),
        decreases cs.len() - j,
    {
        out.push(ascii_lower_char(cs[j]));
        j = j + 1;
    }
    assert(cs@.take(cs.len() as int) =~= cs@);
    string_of(&out)
}

/// Calls `char::is_whitespace`. Claimed: true exactly for the characters
/// with the Unicode `White_Space` property.
#[verifier::external_body]
pub(crate) fn is_whitespace(c: char) -> (r: bool)
    ensures
        r == unicode_white_space(c),
{
    c.is_whitespace()
}

pub fn ascii_lower_char(c: char) -> (r: char)
    ensures
        r == ascii_lower(c),
{
    if 'A' <= c && c <= 'Z' {
        let n: u32 = c as u32 + 32;
        char_from_ascii(n)
    } else {
        c
    }
}

fn char_from_ascii(n: u32) -> (r: char)
    requires
        n < 128,
    ensures
        r == n as char,
{
    let b: u8 = n as u8;
    b as char
}

/// The two sequences are equal.
pub fn seq_eq(a: &[char], b: &[char]) -> (r: bool)
    ensures
        r == (a@ == b@),
{
    if a.len() != b.len() {
        return false;
    }
    let mut i: usize = 0;
    while i < a.len()
        invariant
            a.len() == b.len(),
            i <= a.len(),
            forall|j: int| 0 <= j < i ==> a@[j] == b@[j],
        decreases a.len() - i,
    {
        if a[i] != b[i] {
            return false;
        }
        i = i + 1;
    }
    assert(a@ =~= b@);
    true
}

/// The two sequences are equal when ASCII letters are compared without case.
pub fn seq_eq_ignore_ascii_case(a: &[char], b: &[char]) -> (r: bool)
    ensures
        r == eq_ignore_ascii_case(a@, b@),
{
    if a.len() != b.len() {
        return false;
    }
    let mut i: usize = 0;
    while i < a.len()
        invariant
            a.len() == b.len(),
            i <= a.len(),
            forall|j: int| 0 <= j < i ==> ascii_lower(#[trigger] a@[j]) == ascii_lower(b@[j]),
        decreases a.len() - i,
    {
        if ascii_lower_char(a[i]) != ascii_lower_char(b[i]) {
            return false;
        }
        i = i + 1;
    }
    true
}

/// The pieces of `s` between occurrences of `sep`.
pub fn split_char(s: &[char], sep: char) -> (r: Vec<Vec<char>>)
    ensures
        seqs_of(r@) == split_spec(s@, sep),
        r.len() >= 1,
{
    let mut parts: Vec<Vec<char>> = Vec::new();
    let mut cur: Vec<char> = Vec::new();
    let mut i: usize = 0;
    assert(s@.take(0) =~= Seq::<char>::empty());
    assert(seqs_of(parts@).push(cur@) =~= seq![Seq::<char>::empty()]);
    while i < s.len()
        invariant
            i <= s.len(),
            seqs_of(parts@).push(cur@) == split_spec(s@.take(i as int), sep),
        decreases s.len() - i,
    {
        let ghost before = seqs_of(parts@).push(cur@);
        assert(s@.take(i + 1).drop_last() =~= s@.take(i as int));
        if s[i] == sep {
            let done = cur;
            parts.push(done);
            cur = Vec::new();
            assert(seqs_of(parts@).push(cur@) =~= before.push(Seq::<char>::empty()));
        } else {
            cur.push(s[i]);
            assert(seqs_of(parts@).push(cur@) =~= before.update(before.len() - 1, before.last().push(s@[i as int])));
        }
        i = i + 1;
    }
    assert(s@.take(s.len() as int) =~= s@);
    let ghost before = seqs_of(parts@).push(cur@);
    parts.push(cur);
    assert(seqs_of(parts@) =~= before);
    parts
}

/// The words of `s`, as `str::split_whitespace` gives them.
pub fn split_whitespace(s: &[char]) -> (r: Vec<Vec<char>>)
    ensures
        seqs_of(r@) == words(s@),
{
    let mut parts: Vec<Vec<char>> = Vec::new();
    let mut cur: Vec<char> = Vec::new();
    let mut i: usize = 0;
    assert(s@.skip(0) =~= s@);
    assert(seqs_of(parts@) + words_from(s@, cur@) =~= words(s@));
    while i < s.len()
        invariant
            i <= s.len(),
            seqs_of(parts@) + words_from(s@.skip(i as int), cur@) == words(s@),
        decreases s.len() - i,
    {
        let ghost rest = s@.skip(i as int);
        assert(rest.drop_first() =~= s@.skip(i + 1));
        if is_whitespace(s[i]) {
            if cur.len() > 0 {
                let ghost pv = seqs_of(parts@);
                let ghost cv = cur@;
                let done = cur;
                parts.push(done);
                cur = Vec::new();
                assert(seqs_of(parts@) =~= pv + seq![cv]);
                assert(pv + (seq![cv] + words_from(s@.skip(i + 1), Seq::<char>::empty()))
                    =~= seqs_of(parts@) + words_from(s@.skip(i + 1), cur@));
            }
        } else {
            cur.push(s[i]);
        }
        i = i + 1;
    }
    assert(s@.skip(s.len() as int) =~= Seq::<char>::empty());
    if cur.len() > 0 {
        let ghost pv = seqs_of(parts@);
        let ghost cv = cur@;
        let done = cur;
        parts.push(done);
        assert(seqs_of(parts@) =~= pv + seq![cv]);
    } else {
        assert(seqs_of(parts@) + Seq::<Seq<char>>::empty() =~= seqs_of(parts@));
    }
    parts
}

/// `needle` occurs in `hay` at position `i`.
fn matches_at(hay: &[char], needle: &[char], i: usize) -> (r: bool)
    requires
        i + needle.len() <= hay.len(),
    ensures
        r == occurs_at(hay@, needle@, i as int),
{
    let mut j: usize = 0;
    while j < needle.len()
        invariant
            i + needle.len() <= hay.len(),
            j <= needle.len(),
            forall|k: int| 0 <= k < j ==> hay@[i + k] == needle@[k],
        decreases needle.len() - j,
    {
        if hay[i + j] != needle[j] {
            assert(hay@.subrange(i as int, i + needle.len())[j as int] != needle@[j as int]);
            return false;
        }
        j = j + 1;
    }
    assert(hay@.subrange(i as int, i + needle.len()) =~= needle@);
    true
}

/// `needle` occurs somewhere in `hay`.
pub fn contains(hay: &[char], needle: &[char]) -> (r: bool)
    ensures
        r == contains_spec(hay@, needle@),
{
    if needle.len() > hay.len() {
        return false;
    }
    let last: usize = hay.len() - needle.len();
    let mut i: usize = 0;
    while i <= last
        invariant
            last + needle.len() == hay.len(),
            i <= last + 1,
            forall|k: int| 0 <= k < i ==> !occurs_at(hay@, needle@, k),
        decreases last + 1 - i,
    {
        if matches_at(hay, needle, i) {
            return true;
        }
        if i == last {
            return false;
        }
        i = i + 1;
    }
    false
}

/// `s` begins with `prefix`.
pub fn starts_with(s: &[char], prefix: &[char]) -> (r: bool)
    ensures
        r == starts_with_spec(s@, prefix@),
{
    if prefix.len() > s.len() {
        return false;
    }
    let r = matches_at(s, prefix, 0);
    assert(s@.subrange(0, prefix@.len() as int) =~= s@.take(prefix@.len() as int));
    r
}

/// `c` occurs in `s`.
pub fn contains_char(s: &[char], c: char) -> (r: bool)
    ensures
        r == s@.contains(c),
{
    let mut i: usize = 0;
    while i < s.len()
        invariant
            i <= s.len(),
            forall|k: int| 0 <= k < i ==> s@[k] != c,
        decreases s.len() - i,
    {
        if s[i] == c {
            return true;
        }
        i = i + 1;
    }
    false
}

/// `s` with every occurrence of `pat` replaced by `rep`.
pub fn replace_all(s: &[char], pat: &[char], rep: &[char]) -> (r: Vec<char>)
    requires
        pat.len() > 0,
    ensures
        r@ == replace_spec(s@, pat@, rep@),
{
    let mut out: Vec<char> = Vec::new();
    let mut i: usize = 0;
    assert(s@.skip(0) =~= s@);
    assert(out@ + replace_spec(s@, pat@, rep@) =~= replace_spec(s@, pat@, rep@));
    while i < s.len()
        invariant
            pat.len() > 0,
            i <= s.len(),
            out@ + replace_spec(s@.skip(i as int), pat@, rep@) == replace_spec(s@, pat@, rep@),
        decreases s.len() - i,
    {
        let ghost rest = s@.skip(i as int);
        let ghost before = out@;
        if pat.len() <= s.len() - i && matches_at(s, pat, i) {
            assert(rest.take(pat.len() as int) =~= s@.subrange(i as int, i + pat.len()));
            assert(rest.skip(pat.len() as int) =~= s@.skip(i + pat.len()));
            let mut k: usize = 0;
            while k < rep.len()
                invariant
                    k <= rep.len(),
                    out@ == before + rep@.take(k as int),
                decreases rep.len() - k,
            {
                out.push(rep[k]);
                k = k + 1;
                assert(out@ =~= before + rep@.take(k as int));
            }
            assert(rep@.take(rep.len() as int) =~= rep@);
            assert(out@ + replace_spec(s@.skip(i + pat.len()), pat@, rep@) =~= before + replace_spec(rest, pat@, rep@));
            i = i + pat.len();
        } else {
            if pat.len() <= s.len() - i {
                assert(rest.take(pat.len() as int) =~= s@.subrange(i as int, i + pat.len()));
            }
            assert(rest.drop_first() =~= s@.skip(i + 1));
            out.push(s[i]);
            assert(out@ + replace_spec(s@.skip(i + 1), pat@, rep@) =~= before + replace_spec(rest, pat@, rep@));
            i = i + 1;
        }
    }
    assert(s@.skip(s.len() as int) =~= Seq::<char>::empty());
    assert(out@ + Seq::<char>::empty() =~= out@);
    out
}

} // verus!

verus! {

pub open spec fn is_digit(c: char) -> bool {
    '0' <= c && c <= '9'
}

pub open spec fn digit_value(c: char) -> int {
    (c as u32) - ('0' as u32)
}

pub open spec fn all_digits(s: Seq<char>) -> bool {
    forall|i: int| 0 <= i < s.len() ==> is_digit(#[trigger] s[i])
}

/// The number that a sequence of decimal digits spells.
pub open spec fn digits_value(s: Seq<char>) -> nat
    decreases s.len(),
{
    if s.len() == 0 {
        0
    } else {
        (digits_value(s.drop_last()) * 10 + digit_value(s.last())) as nat
    }
}

/// The digits of an unsigned number as `str::parse::<u32>` accepts them:
/// an optional `+` and then at least one decimal digit.
pub open spec fn unsigned_digits(s: Seq<char>) -> Seq<char> {
    if s.len() > 0 && s[0] == '+' { s.drop_first() } else { s }
}

/// What `str::parse::<u32>` gives of a text.
pub open spec fn parse_u32_spec(s: Seq<char>) -> Option<u32> {
    let d = unsigned_digits(s);
    if d.len() > 0 && all_digits(d) && digits_value(d) <= u32::MAX {
        Some(digits_value(d) as u32)
    } else {
        None
    }
}

proof fn lemma_digits_value_grows(s: Seq<char>, i: int)
    requires
        all_digits(s),
        0 <= i <= s.len(),
    ensures
        digits_value(s.take(i)) <= digits_value(s),
    decreases s.len() - i,
{
    if i < s.len() {
        lemma_digits_value_grows(s, i + 1);
        assert(s.take(i + 1).drop_last() =~= s.take(i));
        assert(is_digit(s[i]));
    } else {
        assert(s.take(i) =~= s);
    }
}

/// The number that `s` spells, as `str::parse::<u32>` reads it.
pub fn parse_u32(s: &[char]) -> (r: Option<u32>)
    ensures
        r == parse_u32_spec(s@),
{
    let mut start: usize = 0;
    if s.len() > 0 && s[0] == '+' {
        start = 1;
    }
    let ghost d = unsigned_digits(s@);
    assert(d =~= s@.skip(start as int));
    if start >= s.len() {
        return None;
    }
    let mut value: u64 = 0;
    let mut i: usize = start;
    while i < s.len()
        invariant
            start <= i <= s.len(),
            d == s@.skip(start as int),
            d == unsigned_digits(s@),
            forall|k: int| 0 <= k < i - start ==> is_digit(#[trigger] d[k]),
            value == digits_value(d.take(i - start)),
            value <= u32::MAX,
        decreases s.len() - i,
    {
        let c = s[i];
        assert(d[i - start] == c);
        if c < '0' || c > '9' {
            assert(!is_digit(d[i - start]));
            assert(!all_digits(d));
            return None;
        }
        let ghost k = i - start;
        assert(d.take(k + 1).drop_last() =~= d.take(k));
        let digit: u64 = (c as u32 - '0' as u32) as u64;
        value = value * 10 + digit;
        i = i + 1;
        if value > 0xFFFF_FFFF {
            proof {
                if all_digits(d) {
                    lemma_digits_value_grows(d, i - start);
                }
            }
            return None;
        }
    }
    assert(d.take(s.len() - start) =~= d);
    Some(value as u32)
}

/// The decimal digits of a number.
pub open spec fn decimal_spec(n: nat) -> Seq<char>
    decreases n,
{
    if n < 10 {
        seq![(n + 48) as char]
    } else {
        decimal_spec(n / 10).push(((n % 10) + 48) as char)
    }
}

/// The decimal digits of `n`, padded with zeros on the left to `width`.
pub open spec fn padded_decimal_spec(n: nat, width: nat) -> Seq<char> {
    let d = decimal_spec(n);
    if d.len() >= width {
        d
    } else {
        Seq::new((width - d.len()) as nat, |i: int| '0') + d
    }
}

fn digit_char(n: u64) -> (r: char)
    requires
        n < 10,
    ensures
        r == (n + 48) as char,
{
    let b: u8 = (n + 48) as u8;
    b as char
}

/// The decimal digits of `n`.
pub fn decimal(n: u64) -> (r: Vec<char>)
    ensures
        r@ == decimal_spec(n as nat),
        r@.len() >= 1,
    decreases n,
{
    if n < 10 {
        let mut v: Vec<char> = Vec::new();
        v.push(digit_char(n));
        assert(v@ =~= seq![(n + 48) as char]);
        v
    } else {
        let mut v = decimal(n / 10);
        v.push(digit_char(n % 10));
        v
    }
}

/// The decimal digits of `n`, padded with zeros on the left to `width`.
pub fn padded_decimal(n: u64, width: usize) -> (r: Vec<char>)
    ensures
        r@ == padded_decimal_spec(n as nat, width as nat),
{
    let d = decimal(n);
    if d.len() >= width {
        return d;
    }
    let mut out: Vec<char> = Vec::new();
    let pad: usize = width - d.len();
    let mut i: usize = 0;
    while i < pad
        invariant
            i <= pad,
            out@ =~= Seq::new(i as nat, |k: int| '0'),
        decreases pad - i,
    {
        out.push('0');
        i = i + 1;
    }
    let mut j: usize = 0;
    let ghost zeros = out@;
    while j < d.len()
        invariant
            j <= d.len(),
            out@ =~= zeros + d@.take(j as int),
        decreases d.len() - j,
    {
        out.push(d[j]);
        j = j + 1;
    }
    assert(d@.take(d.len() as int) =~= d@);
    out
}

/// Appends the characters of `b` to `a`.
pub fn push_all(a: &mut Vec<char>, b: &[char])
    ensures
        final(a)@ == old(a)@ + b@,
{
    let mut i: usize = 0;
    let ghost start = a@;
    while i < b.len()
        invariant
            i <= b.len(),
            a@ =~= start + b@.take(i as int),
        decreases b.len() - i,
    {
        a.push(b[i]);
        i = i + 1;
    }
    assert(b@.take(b.len() as int) =~= b@);
}

/// The decimal text of a signed number, with `-` before a negative one.
pub open spec fn signed_decimal_spec(n: int) -> Seq<char> {
    if n < 0 {
        seq!['-'] + decimal_spec((-n) as nat)
    } else {
        decimal_spec(n as nat)
    }
}

/// The decimal text of `n`, with `-` before a negative number.
pub fn signed_decimal(n: i64) -> (r: Vec<char>)
    ensures
        r@ == signed_decimal_spec(n as int),
{
    if n < 0 {
        let m: u64 = ((-(n + 1)) as u64) + 1;
        let d = decimal(m);
        let mut v: Vec<char> = vec!['-'];
        push_all(&mut v, &d);
        v
    } else {
        decimal(n as u64)
    }
}


// ---------------------------------------------------------------- lemmas

/// Splitting a text without the separator gives the text itself.
pub proof fn lemma_split_without_sep(s: Seq<char>, sep: char)
    requires
        !s.contains(sep),
    ensures
        split_spec(s, sep) == seq![s],
    decreases s.len(),
{
    if s.len() > 0 {
        assert(!s.drop_last().contains(sep)) by {
            if s.drop_last().contains(sep) {
                let i = choose|i: int| 0 <= i < s.drop_last().len() && s.drop_last()[i] == sep;
                assert(s[i] == sep);
            }
        }
        lemma_split_without_sep(s.drop_last(), sep);
        assert(s.last() != sep) by {
            assert(s[s.len() - 1] == s.last());
        }
        assert(s.drop_last().push(s.last()) =~= s);
        assert(seq![s.drop_last()].update(0, s.drop_last().push(s.last())) =~= seq![s]);
    } else {
        assert(s =~= Seq::<char>::empty());
    }
}

/// Appending text without the separator extends the last piece.
pub proof fn lemma_split_append(x: Seq<char>, b: Seq<char>, sep: char)
    requires
        !b.contains(sep),
    ensures
        split_spec(x + b, sep) == split_spec(x, sep).update(
            split_spec(x, sep).len() - 1,
            split_spec(x, sep).last() + b,
        ),
        split_spec(x, sep).len() >= 1,
    decreases b.len(),
{
    lemma_split_nonempty(x, sep);
    if b.len() == 0 {
        assert(x + b =~= x);
        assert(split_spec(x, sep).last() + b =~= split_spec(x, sep).last());
        assert(split_spec(x, sep).update(split_spec(x, sep).len() - 1, split_spec(x, sep).last()) =~= split_spec(x, sep));
    } else {
        let bd = b.drop_last();
        assert(!bd.contains(sep)) by {
            if bd.contains(sep) {
                let i = choose|i: int| 0 <= i < bd.len() && bd[i] == sep;
                assert(b[i] == sep);
            }
        }
        assert(b.last() != sep) by {
            assert(b[b.len() - 1] == b.last());
        }
        lemma_split_append(x, bd, sep);
        assert((x + b).drop_last() =~= x + bd);
        assert((x + b).last() == b.last());
        lemma_split_nonempty(x + bd, sep);
        let p = split_spec(x, sep);
        let q = p.update(p.len() - 1, p.last() + bd);
        assert(q.len() == p.len());
        assert(q.last() == p.last() + bd);
        assert((p.last() + bd).push(b.last()) =~= p.last() + b);
        assert(q.update(q.len() - 1, q.last().push(b.last())) =~= p.update(p.len() - 1, p.last() + b));
    }
}

/// Splitting gives at least one piece.
pub proof fn lemma_split_nonempty(s: Seq<char>, sep: char)
    ensures
        split_spec(s, sep).len() >= 1,
    decreases s.len(),
{
    if s.len() > 0 {
        lemma_split_nonempty(s.drop_last(), sep);
    }
}

/// Two texts without the separator, joined by it, split back into the two.
pub proof fn lemma_split_two(a: Seq<char>, b: Seq<char>, sep: char)
    requires
        !a.contains(sep),
        !b.contains(sep),
    ensures
        split_spec(a.push(sep) + b, sep) == seq![a, b],
{
    lemma_split_without_sep(a, sep);
    assert(a.push(sep).drop_last() =~= a);
    assert(split_spec(a.push(sep), sep) == seq![a].push(Seq::<char>::empty()));
    lemma_split_append(a.push(sep), b, sep);
    assert(seq![a].push(Seq::<char>::empty()).update(1, Seq::<char>::empty() + b) =~= seq![a, b]);
}

/// The two-digit text of a number below 100 is two decimal digits that
/// spell it, and `str::parse::<u32>` reads it back.
pub proof fn lemma_two_digits(n: nat)
    requires
        n < 100,
    ensures
        padded_decimal_spec(n, 2).len() == 2,
        all_digits(padded_decimal_spec(n, 2)),
        digits_value(padded_decimal_spec(n, 2)) == n,
        parse_u32_spec(padded_decimal_spec(n, 2)) == Some(n as u32),
{
    let p = padded_decimal_spec(n, 2);
    assert(((n + 48) as char) as u32 == n + 48);
    if n < 10 {
        assert(decimal_spec(n) == seq![(n + 48) as char]);
        assert(p =~= seq!['0', (n + 48) as char]);
        assert(p.drop_last() =~= seq!['0']);
        assert(seq!['0'].drop_last() =~= Seq::<char>::empty());
        assert(digits_value(Seq::<char>::empty()) == 0);
        assert(digits_value(seq!['0']) == 0);
        assert(p.last() == (n + 48) as char);
        assert(digit_value((n + 48) as char) == n);
        assert(digits_value(p) == n);
    } else {
        assert(decimal_spec(n / 10) == seq![((n / 10) + 48) as char]);
        assert(decimal_spec(n) == seq![((n / 10) + 48) as char].push(((n % 10) + 48) as char));
        assert(p =~= seq![((n / 10) + 48) as char, ((n % 10) + 48) as char]);
        assert(p.drop_last() =~= seq![((n / 10) + 48) as char]);
        assert(seq![((n / 10) + 48) as char].drop_last() =~= Seq::<char>::empty());
        assert((((n / 10) + 48) as char) as u32 == (n / 10) + 48);
        assert((((n % 10) + 48) as char) as u32 == (n % 10) + 48);
        assert(digits_value(Seq::<char>::empty()) == 0);
        assert(digits_value(seq![((n / 10) + 48) as char]) == n / 10);
        assert(p.last() == ((n % 10) + 48) as char);
        assert(digits_value(p) == n);
    }
    assert(unsigned_digits(p) == p);
}


/// Every character of `s` is an ASCII letter.
pub open spec fn ascii_letters(s: Seq<char>) -> bool {
    forall|i: int| 0 <= i < s.len() ==> ('A' <= #[trigger] s[i] <= 'Z' || 'a' <= s[i] <= 'z')
}

/// ASCII letters stay ASCII letters when lowered, and none is white space.
pub proof fn lemma_ascii_letters_lower(s: Seq<char>)
    requires
        ascii_letters(s),
    ensures
        ascii_letters(ascii_lower_seq(s)),
        is_ascii_seq(s),
        ascii_lower_seq(s).len() == s.len(),
        forall|i: int| 0 <= i < s.len() ==> !unicode_white_space(#[trigger] ascii_lower_seq(s)[i]),
{
    assert forall|i: int| 0 <= i < s.len() implies ('A' <= #[trigger] ascii_lower_seq(s)[i] <= 'Z' || 'a' <= ascii_lower_seq(s)[i] <= 'z') by {
        let c = s[i];
        if 'A' <= c <= 'Z' {
            assert(((c as u32) + 32) as char as u32 == (c as u32) + 32);
        }
    }
    assert forall|i: int| 0 <= i < s.len() implies !unicode_white_space(#[trigger] ascii_lower_seq(s)[i]) by {
        let c = s[i];
        if 'A' <= c <= 'Z' {
            assert(((c as u32) + 32) as char as u32 == (c as u32) + 32);
        }
    }
    assert forall|i: int| 0 <= i < s.len() implies is_ascii_char(#[trigger] s[i]) by {
        let c = s[i];
        assert('A' <= c <= 'Z' || 'a' <= c <= 'z');
    }
}

/// A run of characters that are not white space is read as part of the
/// current word.
pub proof fn lemma_words_run(a: Seq<char>, rest: Seq<char>, cur: Seq<char>)
    requires
        forall|i: int| 0 <= i < a.len() ==> !unicode_white_space(#[trigger] a[i]),
    ensures
        words_from(a + rest, cur) == words_from(rest, cur + a),
    decreases a.len(),
{
    if a.len() == 0 {
        assert(a + rest =~= rest);
        assert(cur + a =~= cur);
    } else {
        assert((a + rest)[0] == a[0]);
        assert((a + rest).drop_first() =~= a.drop_first() + rest);
        assert forall|i: int| 0 <= i < a.drop_first().len() implies !unicode_white_space(#[trigger] a.drop_first()[i]) by {
            assert(a.drop_first()[i] == a[i + 1]);
        }
        lemma_words_run(a.drop_first(), rest, cur.push(a[0]));
        assert(cur.push(a[0]) + a.drop_first() =~= cur + a);
    }
}

/// A space after a word ends it.
pub proof fn lemma_words_space(rest: Seq<char>, cur: Seq<char>)
    requires
        cur.len() > 0,
    ensures
        words_from(seq![' '] + rest, cur) == seq![cur] + words_from(rest, Seq::<char>::empty()),
{
    assert((seq![' '] + rest)[0] == ' ');
    assert((seq![' '] + rest).drop_first() =~= rest);
}


/// The decimal text of a number is at least one digit.
pub proof fn lemma_decimal_digits(n: nat)
    ensures
        all_digits(decimal_spec(n)),
        decimal_spec(n).len() >= 1,
    decreases n,
{
    if n >= 10 {
        lemma_decimal_digits(n / 10);
        let d = decimal_spec(n / 10);
        let c = ((n % 10) + 48) as char;
        assert(c as u32 == (n % 10) + 48);
        assert forall|i: int| 0 <= i < d.push(c).len() implies is_digit(#[trigger] d.push(c)[i]) by {
            if i < d.len() {
                assert(d.push(c)[i] == d[i]);
            }
        }
    } else {
        assert(((n + 48) as char) as u32 == n + 48);
    }
}

/// The padded decimal text of a number is digits, at least `width` of them
/// and at least one.
pub proof fn lemma_padded_digits(n: nat, width: nat)
    ensures
        all_digits(padded_decimal_spec(n, width)),
        padded_decimal_spec(n, width).len() >= 1,
        padded_decimal_spec(n, width).len() >= width,
{
    lemma_decimal_digits(n);
    let d = decimal_spec(n);
    if d.len() < width {
        let z = Seq::new((width - d.len()) as nat, |i: int| '0');
        assert forall|i: int| 0 <= i < (z + d).len() implies is_digit(#[trigger] (z + d)[i]) by {
            if i >= z.len() {
                assert((z + d)[i] == d[i - z.len()]);
            }
        }
    }
}

/// Replacing a pattern that does not occur leaves the text as it is.
pub proof fn lemma_replace_absent(s: Seq<char>, pat: Seq<char>, rep: Seq<char>)
    requires
        pat.len() > 0,
        !contains_spec(s, pat),
    ensures
        replace_spec(s, pat, rep) == s,
    decreases s.len(),
{
    if s.len() >= pat.len() {
        assert(s.take(pat.len() as int) =~= s.subrange(0, pat.len() as int));
        assert(!occurs_at(s, pat, 0));
        let t = s.drop_first();
        assert(!contains_spec(t, pat)) by {
            if contains_spec(t, pat) {
                let i = choose|i: int| occurs_at(t, pat, i);
                assert(s.subrange(i + 1, i + 1 + pat.len()) =~= t.subrange(i, i + pat.len()));
                assert(occurs_at(s, pat, i + 1));
            }
        }
        lemma_replace_absent(t, pat, rep);
        assert(seq![s[0]] + t =~= s);
    }
}


/// ASCII texts that differ only in the case of their letters have the same
/// lowercase form.
pub proof fn lemma_lowercase_ignores_case(s: Seq<char>, t: Seq<char>)
    requires
        is_ascii_seq(s),
        is_ascii_seq(t),
        eq_ignore_ascii_case(s, t),
    ensures
        lowercase(s) == lowercase(t),
{
    assert(ascii_lower_seq(s) =~= ascii_lower_seq(t));
}


/// Splitting a text that ends with the separator and then more text: the
/// pieces of the first text but its empty last one, then the pieces of the
/// second.
pub proof fn lemma_split_concat(c: Seq<char>, t: Seq<char>, sep: char)
    requires
        c.len() > 0 ==> c.last() == sep,
    ensures
        split_spec(c + t, sep) == split_spec(c, sep).drop_last() + split_spec(t, sep),
    decreases t.len(),
{
    lemma_split_nonempty(c, sep);
    lemma_split_nonempty(t, sep);
    if t.len() == 0 {
        assert(c + t =~= c);
        if c.len() > 0 {
            assert(split_spec(c, sep) == split_spec(c.drop_last(), sep).push(Seq::<char>::empty()));
        }
        assert(split_spec(c, sep).drop_last() + seq![Seq::<char>::empty()] =~= split_spec(c, sep));
    } else {
        let tp = t.drop_last();
        let x = t.last();
        lemma_split_concat(c, tp, sep);
        lemma_split_nonempty(tp, sep);
        assert((c + t).drop_last() =~= c + tp);
        assert((c + t).last() == x);
        let a = split_spec(c, sep).drop_last();
        let b = split_spec(tp, sep);
        if x == sep {
            assert((a + b).push(Seq::<char>::empty()) =~= a + b.push(Seq::<char>::empty()));
        } else {
            assert((a + b).update((a + b).len() - 1, (a + b).last().push(x)) =~= a + b.update(b.len() - 1, b.last().push(x)));
        }
    }
}


/// Lowering ASCII text twice is lowering it once, and keeps out a
/// character that is no ASCII letter where the text holds none.
pub proof fn lemma_lowercase_ascii_twice(s: Seq<char>, c: char)
    requires
        is_ascii_seq(s),
    ensures
        lowercase(lowercase(s)) == lowercase(s),
        !('A' <= c <= 'Z') && !('a' <= c <= 'z') && !s.contains(c) ==> !lowercase(s).contains(c),
{
    let l = ascii_lower_seq(s);
    assert forall|i: int| 0 <= i < l.len() implies is_ascii_char(#[trigger] l[i]) by {
        assert(is_ascii_char(s[i]));
        if 'A' <= s[i] <= 'Z' {
            assert(((s[i] as u32) + 32) as char as u32 == (s[i] as u32) + 32);
        }
    }
    assert forall|i: int| 0 <= i < l.len() implies ascii_lower(#[trigger] l[i]) == l[i] by {
        if 'A' <= s[i] <= 'Z' {
            assert(((s[i] as u32) + 32) as char as u32 == (s[i] as u32) + 32);
        }
    }
    assert(ascii_lower_seq(l) =~= l);
    if !('A' <= c <= 'Z') && !('a' <= c <= 'z') && !s.contains(c) && l.contains(c) {
        let i = choose|i: int| 0 <= i < l.len() && l[i] == c;
        if 'A' <= s[i] <= 'Z' {
            assert(((s[i] as u32) + 32) as char as u32 == (s[i] as u32) + 32);
        } else {
            assert(s[i] == c);
        }
    }
}

} // verus!
