//! Character-level text utilities: whitespace trimming, ANSI escape removal
//! and a few sequence helpers, each with a mathematical specification.
use vstd::prelude::*;
use vstd::std_specs::iter::IteratorSpec;

verus! {

/// Appends one character to a string (`String::push`).
#[verifier::external_body]
fn string_push(s: &mut String, c: char)
    ensures
        final(s)@ == old(s)@.push(c),
{
    s.push(c);
}

/// The characters of a string slice, in order.
pub fn chars_of(s: &str) -> (r: Vec<char>)
    ensures
        r@ == s@,
{
    let mut r: Vec<char> = Vec::new();
    for c in it: s.chars()
        invariant
            r@ == it.seq().take(it.index() as int),
    {
        r.push(c);
    }
    r
}

/// Appends the given characters to a string.
pub fn push_chars(s: &mut String, cs: &[char])
    ensures
        final(s)@ == old(s)@ + cs@,
{
    let mut i: usize = 0;
    while i < cs.len()
        invariant
            i <= cs.len(),
            s@ == old(s)@ + cs@.take(i as int),
        decreases cs.len() - i,
    {
        string_push(s, cs[i]);
        assert(cs@.take(i + 1) == cs@.take(i as int).push(cs@[i as int]));
        i = i + 1;
    }
    assert(cs@.take(cs.len() as int) == cs@);
}

/// Appends a string slice to a string.
pub fn push_str(s: &mut String, t: &str)
    ensures
        final(s)@ == old(s)@ + t@,
{
    let cs = chars_of(t);
    push_chars(s, cs.as_slice());
}

/// Whether two string slices hold the same characters.
pub fn str_eq(a: &str, b: &str) -> (r: bool)
    ensures
        r == (a@ == b@),
{
    let x = chars_of(a);
    let y = chars_of(b);
    if x.len() != y.len() {
        return false;
    }
    let mut i: usize = 0;
    while i < x.len()
        invariant
            x@ == a@,
            y@ == b@,
            x.len() == y.len(),
            i <= x.len(),
            forall|j: int| 0 <= j < i ==> x@[j] == y@[j],
        decreases x.len() - i,
    {
        if x[i] != y[i] {
            assert(x@[i as int] != y@[i as int]);
            return false;
        }
        i = i + 1;
    }
    assert(x@ =~= y@);
    true
}

/// A string holding exactly the given characters.
pub fn string_of(cs: &[char]) -> (r: String)
    ensures
        r@ == cs@,
{
    let mut r = String::new();
    push_chars(&mut r, cs);
    r
}

/// A copy of a string slice as an owned string.
pub fn owned(s: &str) -> (r: String)
    ensures
        r@ == s@,
{
    s.to_owned()
}

/// The concatenation of two string slices.
pub fn concat2(a: &str, b: &str) -> (r: String)
    ensures
        r@ == a@ + b@,
{
    let mut r = owned(a);
    push_str(&mut r, b);
    r
}

/// The concatenation of three string slices.
pub fn concat3(a: &str, b: &str, c: &str) -> (r: String)
    ensures
        r@ == a@ + b@ + c@,
{
    let mut r = owned(a);
    push_str(&mut r, b);
    push_str(&mut r, c);
    r
}

/// Unicode `White_Space`, the property that `char::is_whitespace` tests.
pub open spec fn is_space(c: char) -> bool {
    let n = c as u32;
    ||| 0x09 <= n <= 0x0d
    ||| n == 0x20
    ||| n == 0x85
    ||| n == 0xa0
    ||| n == 0x1680
    ||| 0x2000 <= n <= 0x200a
    ||| n == 0x2028
    ||| n == 0x2029
    ||| n == 0x202f
    ||| n == 0x205f
    ||| n == 0x3000
}

/// Whether a character is white space.
pub fn is_whitespace(c: char) -> (r: bool)
    ensures
        r == is_space(c),
{
    let n = c as u32;
    (0x09 <= n && n <= 0x0d) || n == 0x20 || n == 0x85 || n == 0xa0 || n == 0x1680 || (0x2000
        <= n && n <= 0x200a) || n == 0x2028 || n == 0x2029 || n == 0x202f || n == 0x205f || n
        == 0x3000
}

/// `s` without its leading white space.
pub open spec fn trim_start_spec(s: Seq<char>) -> Seq<char>
    decreases s.len(),
{
    if s.len() > 0 && is_space(s[0]) {
        trim_start_spec(s.drop_first())
    } else {
        s
    }
}

/// `s` without its trailing white space.
pub open spec fn trim_end_spec(s: Seq<char>) -> Seq<char>
    decreases s.len(),
{
    if s.len() > 0 && is_space(s.last()) {
        trim_end_spec(s.drop_last())
    } else {
        s
    }
}

/// `s` without leading and trailing white space.
pub open spec fn trim_spec(s: Seq<char>) -> Seq<char> {
    trim_end_spec(trim_start_spec(s))
}

proof fn lemma_trim_start_skip(s: Seq<char>, i: int)
    requires
        0 <= i <= s.len(),
        forall|j: int| 0 <= j < i ==> is_space(#[trigger] s[j]),
    ensures
        trim_start_spec(s) == trim_start_spec(s.skip(i)),
    decreases i,
{
    if i == 0 {
        assert(s.skip(0) == s);
    } else {
        assert(is_space(s[0]));
        let t = s.drop_first();
        assert forall|j: int| 0 <= j < i - 1 implies is_space(#[trigger] t[j]) by {
            assert(t[j] == s[j + 1]);
        }
        lemma_trim_start_skip(t, i - 1);
        assert(t.skip(i - 1) == s.skip(i));
    }
}

proof fn lemma_trim_end_take(s: Seq<char>, i: int)
    requires
        0 <= i <= s.len(),
        forall|j: int| i <= j < s.len() ==> is_space(#[trigger] s[j]),
    ensures
        trim_end_spec(s) == trim_end_spec(s.take(i)),
    decreases s.len() - i,
{
    if i == s.len() {
        assert(s.take(i) == s);
    } else {
        assert(is_space(s.last()));
        let t = s.drop_last();
        assert forall|j: int| i <= j < t.len() implies is_space(#[trigger] t[j]) by {
            assert(t[j] == s[j]);
        }
        lemma_trim_end_take(t, i);
        assert(t.take(i) == s.take(i));
    }
}

proof fn lemma_trim_start_shape(s: Seq<char>)
    ensures
        trim_start_spec(s).len() == 0 || !is_space(trim_start_spec(s)[0]),
    decreases s.len(),
{
    if s.len() > 0 && is_space(s[0]) {
        lemma_trim_start_shape(s.drop_first());
    }
}

proof fn lemma_trim_end_shape(s: Seq<char>)
    ensures
        trim_end_spec(s).len() <= s.len(),
        trim_end_spec(s) == s.take(trim_end_spec(s).len() as int),
        trim_end_spec(s).len() == 0 || !is_space(trim_end_spec(s).last()),
    decreases s.len(),
{
    if s.len() > 0 && is_space(s.last()) {
        lemma_trim_end_shape(s.drop_last());
        let t = trim_end_spec(s.drop_last());
        assert(s.drop_last().take(t.len() as int) == s.take(t.len() as int));
    } else {
        assert(s.take(s.len() as int) == s);
    }
}

/// Trimming what is already trimmed changes nothing.
pub proof fn lemma_trim_idempotent(s: Seq<char>)
    ensures
        trim_spec(trim_spec(s)) == trim_spec(s),
{
    let r = trim_start_spec(s);
    let t = trim_end_spec(r);
    lemma_trim_start_shape(s);
    lemma_trim_end_shape(r);
    if t.len() > 0 {
        assert(t[0] == r[0]);
        assert(!is_space(t[0]));
        assert(trim_start_spec(t) == t);
        assert(trim_end_spec(t) == t);
    } else {
        assert(trim_start_spec(t) == t);
        assert(trim_end_spec(t) == t);
    }
}

/// Whether `t` occurs in `h` as a contiguous run of characters.
pub open spec fn is_substring(t: Seq<char>, h: Seq<char>) -> bool {
    exists|a: int, b: int| 0 <= a <= b <= h.len() && h.subrange(a, b) == t
}

proof fn lemma_trim_start_suffix(s: Seq<char>) -> (k: int)
    ensures
        0 <= k <= s.len(),
        trim_start_spec(s) == s.subrange(k, s.len() as int),
    decreases s.len(),
{
    if s.len() > 0 && is_space(s[0]) {
        let k = lemma_trim_start_suffix(s.drop_first());
        assert(s.drop_first().subrange(k, s.drop_first().len() as int) == s.subrange(
            k + 1,
            s.len() as int,
        ));
        k + 1
    } else {
        assert(s.subrange(0, s.len() as int) == s);
        0
    }
}

/// The trimmed text is a contiguous run of the text.
pub proof fn lemma_trim_is_substring(s: Seq<char>, h: Seq<char>)
    requires
        is_substring(s, h),
    ensures
        is_substring(trim_spec(s), h),
{
    let (a, b) = choose|a: int, b: int| 0 <= a <= b <= h.len() && h.subrange(a, b) == s;
    let k = lemma_trim_start_suffix(s);
    let r = trim_start_spec(s);
    lemma_trim_end_shape(r);
    let m = trim_end_spec(r).len() as int;
    assert(h.subrange(a + k, a + k + m) == trim_spec(s));
}

/// `s` without its leading white space (`str::trim_start`).
pub fn trim_start(s: &[char]) -> (r: Vec<char>)
    ensures
        r@ == trim_start_spec(s@),
{
    let mut i: usize = 0;
    while i < s.len() && is_whitespace(s[i])
        invariant
            i <= s.len(),
            forall|j: int| 0 <= j < i ==> is_space(#[trigger] s@[j]),
        decreases s.len() - i,
    {
        i = i + 1;
    }
    proof {
        lemma_trim_start_skip(s@, i as int);
    }
    let r = slice_from(s, i);
    r
}

/// `s` without its trailing white space (`str::trim_end`).
pub fn trim_end(s: &[char]) -> (r: Vec<char>)
    ensures
        r@ == trim_end_spec(s@),
{
    let mut i: usize = s.len();
    while i > 0 && is_whitespace(s[i - 1])
        invariant
            i <= s.len(),
            forall|j: int| i <= j < s.len() ==> is_space(#[trigger] s@[j]),
        decreases i,
    {
        i = i - 1;
    }
    proof {
        lemma_trim_end_take(s@, i as int);
        let t = s@.take(i as int);
        if t.len() > 0 {
            assert(t.last() == s@[i - 1]);
        }
    }
    slice_range(s, 0, i)
}

/// `s` without leading and trailing white space (`str::trim`).
pub fn trim(s: &[char]) -> (r: Vec<char>)
    ensures
        r@ == trim_spec(s@),
{
    let a = trim_start(s);
    trim_end(a.as_slice())
}

/// The characters of `s` from position `from` on.
pub fn slice_from(s: &[char], from: usize) -> (r: Vec<char>)
    requires
        from <= s.len(),
    ensures
        r@ == s@.skip(from as int),
{
    slice_range(s, from, s.len())
}

/// The characters of `s` at positions `from..to`.
pub fn slice_range(s: &[char], from: usize, to: usize) -> (r: Vec<char>)
    requires
        from <= to <= s.len(),
    ensures
        r@ == s@.subrange(from as int, to as int),
{
    let mut r: Vec<char> = Vec::new();
    let mut i = from;
    while i < to
        invariant
            from <= i <= to <= s.len(),
            r@ == s@.subrange(from as int, i as int),
        decreases to - i,
    {
        r.push(s[i]);
        i = i + 1;
    }
    r
}

/// Whether `s` ends with `p`.
pub open spec fn ends_with_spec(s: Seq<char>, p: Seq<char>) -> bool {
    s.len() >= p.len() && s.skip(s.len() - p.len()) == p
}

/// First position at or after `i` where no CSI parameter byte (0x30-0x3F) stands.
pub open spec fn csi_params_end(s: Seq<char>, i: int) -> int
    decreases s.len() - i,
{
    if 0 <= i < s.len() && 0x30 <= (s[i] as u32) <= 0x3f {
        csi_params_end(s, i + 1)
    } else {
        i
    }
}

/// First position at or after `i` where no CSI intermediate byte (0x20-0x2F) stands.
pub open spec fn csi_inter_end(s: Seq<char>, i: int) -> int
    decreases s.len() - i,
{
    if 0 <= i < s.len() && 0x20 <= (s[i] as u32) <= 0x2f {
        csi_inter_end(s, i + 1)
    } else {
        i
    }
}

/// Length of the complete ANSI control sequence (ESC `[` parameters,
/// intermediates, final byte 0x40-0x7E) that starts at position `i` of `s`,
/// or 0 where none starts there.
pub open spec fn csi_len_at(s: Seq<char>, i: int) -> int {
    if 0 <= i && i + 1 < s.len() && s[i] == '\u{1b}' && s[i + 1] == '[' {
        let k = csi_inter_end(s, csi_params_end(s, i + 2));
        if k < s.len() && 0x40 <= (s[k] as u32) <= 0x7e {
            k + 1 - i
        } else {
            0
        }
    } else {
        0
    }
}

proof fn lemma_params_end_bounds(s: Seq<char>, i: int)
    requires
        0 <= i,
    ensures
        i <= csi_params_end(s, i),
        i <= s.len() ==> csi_params_end(s, i) <= s.len(),
    decreases s.len() - i,
{
    if 0 <= i < s.len() && 0x30 <= (s[i] as u32) <= 0x3f {
        lemma_params_end_bounds(s, i + 1);
    }
}

proof fn lemma_inter_end_bounds(s: Seq<char>, i: int)
    requires
        0 <= i,
    ensures
        i <= csi_inter_end(s, i),
        i <= s.len() ==> csi_inter_end(s, i) <= s.len(),
    decreases s.len() - i,
{
    if 0 <= i < s.len() && 0x20 <= (s[i] as u32) <= 0x2f {
        lemma_inter_end_bounds(s, i + 1);
    }
}

/// The characters of `s` from position `i` on, with every complete ANSI
/// control sequence removed, scanning from left to right.
pub open spec fn strip_ansi_from(s: Seq<char>, i: int) -> Seq<char>
    decreases s.len() - i,
{
    if i < 0 || i >= s.len() {
        seq![]
    } else if csi_len_at(s, i) > 0 {
        strip_ansi_from(s, i + csi_len_at(s, i))
    } else {
        seq![s[i]] + strip_ansi_from(s, i + 1)
    }
}

/// `s` with every complete ANSI control sequence removed.
pub open spec fn strip_ansi_spec(s: Seq<char>) -> Seq<char> {
    strip_ansi_from(s, 0)
}

/// A parameter byte of an ANSI control sequence (0x30-0x3F).
pub open spec fn is_csi_param(c: char) -> bool {
    0x30 <= (c as u32) <= 0x3f
}

/// An intermediate byte of an ANSI control sequence (0x20-0x2F).
pub open spec fn is_csi_intermediate(c: char) -> bool {
    0x20 <= (c as u32) <= 0x2f
}

/// The final byte of an ANSI control sequence (0x40-0x7E).
pub open spec fn is_csi_final(c: char) -> bool {
    0x40 <= (c as u32) <= 0x7e
}

/// Whether `c` is exactly one complete ANSI control sequence: ESC, `[`,
/// parameter bytes, intermediate bytes, and one final byte.
pub open spec fn is_control_sequence(c: Seq<char>) -> bool {
    &&& c.len() >= 3
    &&& c[0] == '\u{1b}'
    &&& c[1] == '['
    &&& is_csi_final(c.last())
    &&& exists|p: int| #[trigger] csi_body_split(c, p)
}

/// Whether the bytes of `c` between `[` and the final byte are parameter
/// bytes before position `p` and intermediate bytes from `p` on.
pub open spec fn csi_body_split(c: Seq<char>, p: int) -> bool {
    2 <= p <= c.len() - 1 && (forall|k: int| 2 <= k < p ==> is_csi_param(#[trigger] c[k])) && (
    forall|k: int| p <= k < c.len() - 1 ==> is_csi_intermediate(#[trigger] c[k]))
}

proof fn lemma_params_end_at(s: Seq<char>, i: int, p: int)
    requires
        0 <= i <= p < s.len(),
        forall|k: int| i <= k < p ==> is_csi_param(#[trigger] s[k]),
        !is_csi_param(s[p]),
    ensures
        csi_params_end(s, i) == p,
    decreases p - i,
{
    if i < p {
        lemma_params_end_at(s, i + 1, p);
    }
}

proof fn lemma_inter_end_at(s: Seq<char>, i: int, p: int)
    requires
        0 <= i <= p < s.len(),
        forall|k: int| i <= k < p ==> is_csi_intermediate(#[trigger] s[k]),
        !is_csi_intermediate(s[p]),
    ensures
        csi_inter_end(s, i) == p,
    decreases p - i,
{
    if i < p {
        lemma_inter_end_at(s, i + 1, p);
    }
}

proof fn lemma_params_end_shift(a: Seq<char>, t: Seq<char>, j: int)
    requires
        0 <= j,
    ensures
        csi_params_end(a + t, a.len() + j) == a.len() + csi_params_end(t, j),
    decreases t.len() - j,
{
    if j < t.len() {
        assert((a + t)[a.len() + j] == t[j]);
        lemma_params_end_shift(a, t, j + 1);
    }
}

proof fn lemma_inter_end_shift(a: Seq<char>, t: Seq<char>, j: int)
    requires
        0 <= j,
    ensures
        csi_inter_end(a + t, a.len() + j) == a.len() + csi_inter_end(t, j),
    decreases t.len() - j,
{
    if j < t.len() {
        assert((a + t)[a.len() + j] == t[j]);
        lemma_inter_end_shift(a, t, j + 1);
    }
}

proof fn lemma_csi_len_shift(a: Seq<char>, t: Seq<char>, j: int)
    requires
        0 <= j,
    ensures
        csi_len_at(a + t, a.len() + j) == csi_len_at(t, j),
{
    let s = a + t;
    let i = a.len() + j;
    if j + 1 < t.len() {
        assert(s[i] == t[j]);
        assert(s[i + 1] == t[j + 1]);
    }
    lemma_params_end_shift(a, t, j + 2);
    lemma_params_end_bounds(t, j + 2);
    let p = csi_params_end(t, j + 2);
    lemma_inter_end_shift(a, t, p);
    lemma_inter_end_bounds(t, p);
    let k = csi_inter_end(t, p);
    if 0 <= k < t.len() {
        assert(s[a.len() + k] == t[k]);
    }
}

proof fn lemma_strip_shift(a: Seq<char>, t: Seq<char>, j: int)
    requires
        0 <= j,
    ensures
        strip_ansi_from(a + t, a.len() + j) == strip_ansi_from(t, j),
    decreases t.len() - j,
{
    if j < t.len() {
        lemma_csi_len_shift(a, t, j);
        assert((a + t)[a.len() + j] == t[j]);
        let n = csi_len_at(t, j);
        if n > 0 {
            lemma_strip_shift(a, t, j + n);
            assert(a.len() + j + n == a.len() + (j + n));
        } else {
            lemma_strip_shift(a, t, j + 1);
        }
    }
}

/// A complete control sequence at the front of a text is dropped whole, so
/// any run of adjacent sequences disappears entirely.
pub proof fn lemma_strip_drops_leading_sequence(c: Seq<char>, t: Seq<char>)
    requires
        is_control_sequence(c),
    ensures
        strip_ansi_spec(c + t) == strip_ansi_spec(t),
{
    let s = c + t;
    let p = choose|p: int| #[trigger] csi_body_split(c, p);
    assert forall|k: int| 0 <= k < c.len() implies #[trigger] s[k] == c[k] by {}
    assert(c.last() == c[c.len() - 1]);
    assert forall|k: int| 2 <= k < p implies is_csi_param(#[trigger] s[k]) by {
        assert(s[k] == c[k]);
    }
    assert(!is_csi_param(s[p])) by {
        assert(s[p] == c[p]);
        if p < c.len() - 1 {
            assert(is_csi_intermediate(c[p]));
        }
    }
    lemma_params_end_at(s, 2, p);
    assert forall|k: int| p <= k < c.len() - 1 implies is_csi_intermediate(#[trigger] s[k]) by {
        assert(s[k] == c[k]);
    }
    assert(!is_csi_intermediate(s[c.len() - 1]));
    lemma_inter_end_at(s, p, c.len() - 1);
    assert(csi_len_at(s, 0) == c.len());
    lemma_strip_shift(c, t, 0);
    assert(c.len() + 0 == c.len());
}

/// A character other than ESC at the front of a text is kept, in front of
/// what the rest becomes.
pub proof fn lemma_strip_keeps_leading_char(ch: char, t: Seq<char>)
    requires
        ch != '\u{1b}',
    ensures
        strip_ansi_spec(seq![ch] + t) == seq![ch] + strip_ansi_spec(t),
{
    let s = seq![ch] + t;
    assert(s[0] == ch);
    assert(csi_len_at(s, 0) == 0);
    lemma_strip_shift(seq![ch], t, 0);
    assert(seq![ch].len() + 0 == 1);
}

/// Text holding no ESC comes out unchanged.
pub proof fn lemma_strip_keeps_plain_text(s: Seq<char>)
    requires
        forall|i: int| 0 <= i < s.len() ==> s[i] != '\u{1b}',
    ensures
        strip_ansi_spec(s) == s,
    decreases s.len(),
{
    if s.len() > 0 {
        let t = s.drop_first();
        assert forall|i: int| 0 <= i < t.len() implies t[i] != '\u{1b}' by {
            assert(t[i] == s[i + 1]);
        }
        lemma_strip_keeps_plain_text(t);
        lemma_strip_keeps_leading_char(s[0], t);
        assert(seq![s[0]] + t == s);
    } else {
        assert(strip_ansi_from(s, 0) == Seq::<char>::empty());
    }
}

fn params_end(s: &[char], i: usize) -> (r: usize)
    requires
        i <= s.len(),
    ensures
        r as int == csi_params_end(s@, i as int),
{
    let mut j = i;
    while j < s.len() && 0x30 <= (s[j] as u32) && (s[j] as u32) <= 0x3f
        invariant
            i <= j <= s.len(),
            csi_params_end(s@, i as int) == csi_params_end(s@, j as int),
        decreases s.len() - j,
    {
        j = j + 1;
    }
    j
}

fn inter_end(s: &[char], i: usize) -> (r: usize)
    requires
        i <= s.len(),
    ensures
        r as int == csi_inter_end(s@, i as int),
{
    let mut j = i;
    while j < s.len() && 0x20 <= (s[j] as u32) && (s[j] as u32) <= 0x2f
        invariant
            i <= j <= s.len(),
            csi_inter_end(s@, i as int) == csi_inter_end(s@, j as int),
        decreases s.len() - j,
    {
        j = j + 1;
    }
    j
}

fn csi_len(s: &[char], i: usize) -> (r: usize)
    requires
        i < s.len(),
    ensures
        r as int == csi_len_at(s@, i as int),
        r as int <= s.len() - i,
{
    if i + 1 < s.len() && s[i] == '\u{1b}' && s[i + 1] == '[' {
        let p = params_end(s, i + 2);
        proof {
            lemma_params_end_bounds(s@, i + 2);
        }
        let k = inter_end(s, p);
        proof {
            lemma_inter_end_bounds(s@, p as int);
        }
        if k < s.len() && 0x40 <= (s[k] as u32) && (s[k] as u32) <= 0x7e {
            k + 1 - i
        } else {
            0
        }
    } else {
        0
    }
}

/// `s` with every complete ANSI control sequence (colour and reset codes
/// and the like) removed.
pub fn strip_ansi(s: &[char]) -> (r: Vec<char>)
    ensures
        r@ == strip_ansi_spec(s@),
{
    let mut r: Vec<char> = Vec::new();
    let mut i: usize = 0;
    while i < s.len()
        invariant
            i <= s.len(),
            r@ + strip_ansi_from(s@, i as int) == strip_ansi_spec(s@),
        decreases s.len() - i,
    {
        let n = csi_len(s, i);
        if n > 0 {
            i = i + n;
        } else {
            let ghost before = r@;
            r.push(s[i]);
            assert(r@ + strip_ansi_from(s@, i + 1) == before + (seq![s@[i as int]]
                + strip_ansi_from(s@, i + 1)));
            i = i + 1;
        }
    }
    assert(strip_ansi_from(s@, i as int) =~= seq![]);
    assert(r@ + seq![] == r@);
    r
}

} // verus!
