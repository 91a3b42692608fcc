//! Text helpers. Every contract speaks of a text as the sequence of its characters.

use vstd::prelude::*;
use vstd::string::*;
use vstd::utf8::*;

verus! {

/// The Unicode property `White_Space`.
pub open spec fn is_white_space(c: char) -> bool {
    let u = c as u32;
    ||| 0x9 <= u <= 0xD
    ||| u == 0x20
    ||| u == 0x85
    ||| u == 0xA0
    ||| u == 0x1680
    ||| 0x2000 <= u <= 0x200A
    ||| u == 0x2028
    ||| u == 0x2029
    ||| u == 0x202F
    ||| u == 0x205F
    ||| u == 0x3000
}

/// `s` without its leading white space.
pub open spec fn trim_start(s: Seq<char>) -> Seq<char>
    decreases s.len(),
{
    if s.len() > 0 && is_white_space(s[0]) {
        trim_start(s.skip(1))
    } else {
        s
    }
}

/// `s` without its trailing white space.
pub open spec fn trim_end(s: Seq<char>) -> Seq<char>
    decreases s.len(),
{
    if s.len() > 0 && is_white_space(s.last()) {
        trim_end(s.drop_last())
    } else {
        s
    }
}

/// `s` without white space at either end.
pub open spec fn trimmed(s: Seq<char>) -> Seq<char> {
    trim_end(trim_start(s))
}

/// The first `n` characters of `s`, or all of it when it is shorter.
pub open spec fn clip(s: Seq<char>, n: nat) -> Seq<char> {
    if s.len() <= n {
        s
    } else {
        s.take(n as int)
    }
}

/// `str::trim`: the text without leading and trailing white space, where white space
/// is the Unicode property `White_Space`.
pub assume_specification[ str::trim ](s: &str) -> (r: &str)
    ensures
        r@ == trimmed(s@),
;

/// A character whose lower-case form is one ASCII character, whatever its neighbours are: an
/// ASCII character, or the Kelvin sign.
pub open spec fn is_simple(c: char) -> bool {
    '\0' <= c <= '\u{7f}' || c == '\u{212a}'
}

/// An upper-case letter from `A` to `Z` in lower case, `k` for the Kelvin sign, any other
/// character as it is.
pub open spec fn lower_char(c: char) -> char {
    if 'A' <= c <= 'Z' {
        ((c as u32 + 32) as u32) as char
    } else if c == '\u{212a}' {
        'k'
    } else {
        c
    }
}

/// A text with each of its simple characters in lower case.
pub open spec fn lowered(s: Seq<char>) -> Seq<char> {
    s.map_values(|c: char| lower_char(c))
}

/// Where the simple characters begin in which `s` ends.
pub open spec fn simple_start(s: Seq<char>) -> int
    decreases s.len(),
{
    if s.len() > 0 && is_simple(s.last()) {
        simple_start(s.drop_last())
    } else {
        s.len() as int
    }
}

/// What `str::to_lowercase` makes of a text with other than simple characters, up to the last
/// of them. The case of the simple ones among them makes no difference to it.
pub uninterp spec fn lowercase(s: Seq<char>) -> Seq<char>;

/// The lower-case form of a text: letter by letter where it has simple characters alone, and
/// behind the last other one.
pub open spec fn lower(s: Seq<char>) -> Seq<char> {
    if simple_start(s) == 0 {
        lowered(s)
    } else {
        lowercase(lowered(s)) + lowered(s.skip(simple_start(s)))
    }
}

/// `str::to_lowercase`: the Unicode lower-case form of the text, which depends on the text
/// alone. What becomes of a character beyond ASCII may depend on its neighbours, and may be
/// several characters. But an ASCII character becomes one ASCII character whatever stands
/// beside it, the letters `A` to `Z` becoming `a` to `z` and the others staying, and so does
/// the Kelvin sign, which becomes `k`; every other character becomes something that ends in a
/// character beyond ASCII. To the neighbours of an ASCII letter its case makes no difference.
pub assume_specification[ str::to_lowercase ](s: &str) -> (r: String)
    ensures
        simple_start(s@) == 0 ==> r@ == lowered(s@),
        simple_start(s@) != 0 ==> r@ == lowercase(lowered(s@)) + lowered(
            s@.skip(simple_start(s@)),
        ),
        simple_start(s@) != 0 ==> is_beyond_ascii(r@, s@.len() - simple_start(s@)),
;

/// The last character of `r` but the last `n` exists and is beyond ASCII.
pub open spec fn is_beyond_ascii(r: Seq<char>, n: int) -> bool {
    r.len() > n && r[r.len() - n - 1] > '\u{7f}'
}

proof fn lemma_simple_start(s: Seq<char>)
    ensures
        0 <= simple_start(s) <= s.len(),
        simple_start(s) > 0 ==> !is_simple(s[simple_start(s) - 1]),
    decreases s.len(),
{
    if s.len() > 0 && is_simple(s.last()) {
        lemma_simple_start(s.drop_last());
    }
}

/// Digits are the same in lower case.
pub proof fn lemma_lower_digits(s: Seq<char>)
    requires
        forall|i: int| 0 <= i < s.len() ==> '0' <= #[trigger] s[i] <= '9',
    ensures
        lower(s) == s,
    decreases s.len(),
{
    lemma_simple_start(s);
    if simple_start(s) > 0 {
        assert('0' <= s[simple_start(s) - 1] <= '9');
    }
    assert(lowered(s) =~= s);
}

/// An ASCII text without upper-case letters is the same in lower case.
pub proof fn lemma_lower_plain(s: Seq<char>)
    requires
        forall|i: int|
            0 <= i < s.len() ==> #[trigger] s[i] <= '\u{7f}' && !('A' <= s[i] <= 'Z'),
    ensures
        lower(s) == s,
{
    lemma_simple_start(s);
    if simple_start(s) > 0 {
        assert(s[simple_start(s) - 1] <= '\u{7f}');
    }
    assert(lowered(s) =~= s);
}

/// An ASCII text that one text ends in, the other ends in too, where both end in `t` with
/// nothing or a character beyond ASCII before it.
proof fn lemma_same_ascii_end(x: Seq<char>, t: Seq<char>, a: Seq<char>, b: Seq<char>)
    requires
        is_ascii_chars(x),
        t.is_suffix_of(a),
        t.is_suffix_of(b),
        is_beyond_ascii(a, t.len() as int),
        x.is_suffix_of(a),
    ensures
        x.is_suffix_of(b),
{
    if x.len() > t.len() {
        let i = x.len() - t.len() - 1;
        assert(x[i] == a[a.len() - t.len() - 1]);
    } else {
        assert forall|i: int| 0 <= i < x.len() implies #[trigger] x[i] == b[b.len() - x.len() + i] by {
            let j = t.len() - x.len() + i;
            assert(x[i] == a[a.len() - x.len() + i]);
            assert(t[j] == a[a.len() - t.len() + j]);
            assert(t[j] == b[b.len() - t.len() + j]);
        }
        assert(b.subrange(b.len() - x.len(), b.len() as int) =~= x);
    }
}

/// The lower-case form `r` of a text ends in an ASCII text where the text does, letter by
/// letter in lower case.
pub proof fn lemma_lower_ends(s: Seq<char>, r: Seq<char>, x: Seq<char>)
    requires
        r == lower(s),
        simple_start(s) != 0 ==> is_beyond_ascii(r, s.len() - simple_start(s)),
        is_ascii_chars(x),
    ensures
        x.is_suffix_of(r) == x.is_suffix_of(lowered(s)),
{
    let k = simple_start(s);
    lemma_simple_start(s);
    if k > 0 {
        let t = lowered(s.skip(k));
        let l = lowered(s);
        assert(l.subrange(k, l.len() as int) =~= t);
        assert(r.subrange(r.len() - t.len(), r.len() as int) =~= t);
        assert(l[k - 1] == s[k - 1]);
        assert(is_beyond_ascii(l, t.len() as int));
        if x.is_suffix_of(r) {
            lemma_same_ascii_end(x, t, r, l);
        }
        if x.is_suffix_of(l) {
            lemma_same_ascii_end(x, t, l, r);
        }
    }
}

/// The lower-case form `r` of a text is an ASCII text where the text is, letter by letter in
/// lower case.
pub proof fn lemma_lower_is(s: Seq<char>, r: Seq<char>, x: Seq<char>)
    requires
        r == lower(s),
        simple_start(s) != 0 ==> is_beyond_ascii(r, s.len() - simple_start(s)),
        is_ascii_chars(x),
    ensures
        (r == x) == (lowered(s) == x),
{
    let k = simple_start(s);
    lemma_simple_start(s);
    if k > 0 {
        assert(lowered(s)[k - 1] == s[k - 1]);
        assert(lowered(s).len() == s.len());
    }
}

/// `String::push`: appends the character.
pub assume_specification[ String::push ](s: &mut String, c: char)
    ensures
        final(s)@ == old(s)@.push(c),
;

/// The characters of `s`.
pub fn chars_of(s: &str) -> (r: Vec<char>)
    ensures
        r@ == s@,
{
    let mut r: Vec<char> = Vec::new();
    for c in it: s.chars()
        invariant
            it.seq() == s@,
            r@ == s@.take(it.index()),
    {
        r.push(c);
    }
    proof {
        assert(s@.take(s@.len() as int) == s@);
    }
    r
}

/// The text of the characters `v`.
pub fn text_of(v: &Vec<char>) -> (r: String)
    ensures
        r@ == v@,
{
    let mut r = String::new();
    for i in 0..v.len()
        invariant
            r@ == v@.take(i as int),
    {
        r.push(v[i]);
        assert(v@.take(i as int).push(v@[i as int]) =~= v@.take(i + 1));
    }
    assert(v@.take(v@.len() as int) =~= v@);
    r
}

/// Whether the two texts are the same.
pub fn same(a: &str, b: &str) -> (r: bool)
    ensures
        r == (a@ == b@),
{
    broadcast use encode_utf8_decode_utf8;
    let x = a.as_bytes();
    let y = b.as_bytes();
    if x.len() != y.len() {
        return false;
    }
    for i in 0..x.len()
        invariant
            x@.len() == y@.len(),
            x@ == encode_utf8(a@),
            y@ == encode_utf8(b@),
            forall|j: int| 0 <= j < i ==> x@[j] == y@[j],
    {
        if x[i] != y[i] {
            return false;
        }
    }
    assert(x@ =~= y@);
    assert(decode_utf8(encode_utf8(a@)) == a@);
    assert(decode_utf8(encode_utf8(b@)) == b@);
    true
}

/// Whether `s` begins with `p`.
pub fn starts_with(s: &str, p: &str) -> (r: bool)
    ensures
        r == p@.is_prefix_of(s@),
{
    let v = chars_of(s);
    let w = chars_of(p);
    if w.len() > v.len() {
        return false;
    }
    for i in 0..w.len()
        invariant
            v@ == s@,
            w@ == p@,
            w@.len() <= v@.len(),
            forall|j: int| 0 <= j < i ==> w@[j] == v@[j],
    {
        if w[i] != v[i] {
            assert(s@.subrange(0, p@.len() as int)[i as int] != p@[i as int]);
            return false;
        }
    }
    assert(s@.subrange(0, p@.len() as int) =~= p@);
    true
}

/// Whether `s` ends with `p`.
pub fn ends_with(s: &str, p: &str) -> (r: bool)
    ensures
        r == p@.is_suffix_of(s@),
{
    let v = chars_of(s);
    let w = chars_of(p);
    if w.len() > v.len() {
        return false;
    }
    let d: usize = v.len() - w.len();
    for i in 0..w.len()
        invariant
            v@ == s@,
            w@ == p@,
            d + w.len() == v.len(),
            forall|j: int| 0 <= j < i ==> w@[j] == v@[d + j],
    {
        if w[i] != v[d + i] {
            assert(s@.subrange(d as int, s@.len() as int)[i as int] != p@[i as int]);
            return false;
        }
    }
    assert(s@.subrange(d as int, s@.len() as int) =~= p@);
    true
}

/// The first `n` characters of `s` without the white space around it.
pub fn clip_trimmed(s: &str, n: usize) -> (r: String)
    ensures
        r@ == clip(trimmed(s@), n as nat),
{
    let t = s.trim();
    if t.unicode_len() <= n {
        t.to_owned()
    } else {
        t.substring_char(0, n).to_owned()
    }
}

proof fn lemma_trim_start(s: Seq<char>)
    ensures
        trim_start(s).len() > 0 ==> !is_white_space(trim_start(s)[0]),
        trim_start(s).len() <= s.len(),
    decreases s.len(),
{
    if s.len() > 0 && is_white_space(s[0]) {
        lemma_trim_start(s.skip(1));
    }
}

proof fn lemma_trim_end(s: Seq<char>)
    ensures
        trim_end(s).is_prefix_of(s),
        s.len() > 0 && !is_white_space(s[0]) ==> trim_end(s).len() > 0,
        trim_end(s).len() > 0 ==> trim_end(s)[0] == s[0],
    decreases s.len(),
{
    if s.len() > 0 && is_white_space(s.last()) {
        lemma_trim_end(s.drop_last());
        assert(trim_end(s).is_prefix_of(s.drop_last()));
        assert(s.subrange(0, trim_end(s).len() as int) =~= trim_end(s));
        if !is_white_space(s[0]) {
            assert(s.drop_last()[0] == s[0]);
        }
    } else {
        assert(s.subrange(0, s.len() as int) =~= s);
    }
}

/// A trimmed text that is not empty starts with something else than white space.
pub proof fn lemma_trimmed_starts(s: Seq<char>)
    ensures
        trimmed(s).len() > 0 ==> !is_white_space(trimmed(s)[0]),
        trimmed(s).len() <= s.len(),
{
    lemma_trim_start(s);
    lemma_trim_end(trim_start(s));
}

/// A text that starts with something else than white space is not blank.
pub proof fn lemma_trimmed_keeps(s: Seq<char>)
    requires
        s.len() > 0,
        !is_white_space(s[0]),
    ensures
        trimmed(s).len() > 0,
        trimmed(s)[0] == s[0],
{
    lemma_trim_end(s);
}

proof fn lemma_trim_start_part(s: Seq<char>)
    ensures
        forall|c: char| #[trigger] trim_start(s).contains(c) ==> s.contains(c),
    decreases s.len(),
{
    if s.len() > 0 && is_white_space(s[0]) {
        let t = s.skip(1);
        lemma_trim_start_part(t);
        assert forall|c: char| #[trigger] trim_start(s).contains(c) implies s.contains(c) by {
            assert(trim_start(t).contains(c));
            assert(t.contains(c));
            let i = choose|i: int| 0 <= i < t.len() && t[i] == c;
            assert(s[i + 1] == c);
        }
    }
}

/// A trimmed text holds nothing that the text does not hold.
pub proof fn lemma_trimmed_part(s: Seq<char>)
    ensures
        forall|c: char| #[trigger] trimmed(s).contains(c) ==> s.contains(c),
{
    let t = trim_start(s);
    lemma_trim_start_part(s);
    lemma_trim_end(t);
    assert forall|c: char| #[trigger] trimmed(s).contains(c) implies s.contains(c) by {
        let i = choose|i: int| 0 <= i < trimmed(s).len() && trimmed(s)[i] == c;
        assert(t.subrange(0, trimmed(s).len() as int)[i] == t[i]);
        assert(t.contains(t[i]));
    }
}

} // verus!
