//! Text as the rest of the library reads and writes it.
//!
//! Every message, phrase and path this library composes is stated as a sequence
//! of characters, and the functions here are the small executable vocabulary
//! those statements are built from: blankness and trimming, decimal numbers,
//! joining, and the character-wise order.
use vstd::prelude::*;

verus! {

/// `String::push` appends one character to the end of a string.
pub assume_specification[ String::push ](s: &mut String, c: char)
    ensures
        final(s)@ == old(s)@.push(c),
;

/// A character with the Unicode `White_Space` property.
pub open spec fn is_white(c: char) -> bool {
    let n = c as u32;
    ||| 0x9 <= n <= 0xd
    ||| n == 0x20
    ||| n == 0x85
    ||| n == 0xa0
    ||| n == 0x1680
    ||| 0x2000 <= n <= 0x200a
    ||| n == 0x2028
    ||| n == 0x2029
    ||| n == 0x202f
    ||| n == 0x205f
    ||| n == 0x3000
}

/// Text that holds nothing but white space.
pub open spec fn blank(s: Seq<char>) -> bool {
    forall|i: int| 0 <= i < s.len() ==> is_white(#[trigger] s[i])
}

/// Text without its leading white space.
pub open spec fn trim_start(s: Seq<char>) -> Seq<char>
    decreases s.len(),
{
    if s.len() > 0 && is_white(s[0]) {
        trim_start(s.subrange(1, s.len() as int))
    } else {
        s
    }
}

/// Text without its trailing white space.
pub open spec fn trim_end(s: Seq<char>) -> Seq<char>
    decreases s.len(),
{
    if s.len() > 0 && is_white(s.last()) {
        trim_end(s.drop_last())
    } else {
        s
    }
}

/// Text without the white space around it.
pub open spec fn trim(s: Seq<char>) -> Seq<char> {
    trim_end(trim_start(s))
}

/// The digit a number below ten is written as.
pub open spec fn digit(d: nat) -> char {
    (48 + d) as char
}

/// A number in decimal, without leading zeros.
pub open spec fn dec(n: nat) -> Seq<char>
    decreases n,
{
    if n < 10 {
        seq![digit(n)]
    } else {
        dec(n / 10).push(digit(n % 10))
    }
}

/// An integer in decimal, signed where it is negative.
pub open spec fn dec_int(n: int) -> Seq<char> {
    if n < 0 {
        seq!['-'] + dec((-n) as nat)
    } else {
        dec(n as nat)
    }
}

/// The characters of each string of a list.
pub open spec fn texts(strings: Seq<String>) -> Seq<Seq<char>> {
    strings.map_values(|s: String| s@)
}

/// The characters of an optional string.
pub open spec fn text_of(s: Option<String>) -> Option<Seq<char>> {
    match s {
        Some(s) => Some(s@),
        None => None,
    }
}

/// Parts in order, with a separator between each two.
pub open spec fn join(parts: Seq<Seq<char>>, sep: Seq<char>) -> Seq<char>
    decreases parts.len(),
{
    if parts.len() == 0 {
        Seq::empty()
    } else if parts.len() == 1 {
        parts[0]
    } else {
        join(parts.drop_last(), sep) + sep + parts.last()
    }
}

/// The character-wise order of two texts: the first difference decides, and a
/// proper prefix comes first.
pub open spec fn precedes(a: Seq<char>, b: Seq<char>) -> bool
    decreases b.len(),
{
    if b.len() == 0 {
        false
    } else if a.len() == 0 {
        true
    } else if a[0] != b[0] {
        (a[0] as u32) < (b[0] as u32)
    } else {
        precedes(a.subrange(1, a.len() as int), b.subrange(1, b.len() as int))
    }
}

/// Text that begins with another.
pub open spec fn starts_with(s: Seq<char>, prefix: Seq<char>) -> bool {
    prefix.len() <= s.len() && s.subrange(0, prefix.len() as int) == prefix
}

/// The characters of a text.
pub fn chars_of(s: &str) -> (r: Vec<char>)
    ensures
        r@ == s@,
{
    let mut out: Vec<char> = Vec::new();
    for c in it: s.chars()
        invariant
            out@ == it.seq().take(it.index()),
    {
        out.push(c);
        assert(out@ =~= it.seq().take(it.index() + 1));
    }
    out
}

/// The text made of the characters between two positions.
pub fn string_of(chars: &Vec<char>, from: usize, to: usize) -> (r: String)
    requires
        from <= to <= chars@.len(),
    ensures
        r@ == chars@.subrange(from as int, to as int),
{
    let mut out: String = String::new();
    let mut i: usize = from;
    while i < to
        invariant
            from <= i <= to <= chars@.len(),
            out@ == chars@.subrange(from as int, i as int),
        decreases to - i,
    {
        out.push(chars[i]);
        i += 1;
        assert(out@ =~= chars@.subrange(from as int, i as int));
    }
    out
}

/// An empty text.
pub open spec fn nothing() -> Seq<char> {
    Seq::<char>::empty()
}

/// Texts that are encoded alike are one text.
pub proof fn lemma_same_encoding(a: Seq<char>, b: Seq<char>)
    requires
        vstd::utf8::encode_utf8(a) == vstd::utf8::encode_utf8(b),
    ensures
        a == b,
{
    vstd::utf8::encode_utf8_decode_utf8(a);
    vstd::utf8::encode_utf8_decode_utf8(b);
}

/// Whether two texts hold the same characters.
pub fn same(a: &str, b: &str) -> (r: bool)
    ensures
        r == (a@ == b@),
{
    let x = a.as_bytes();
    let y = b.as_bytes();
    if x.len() != y.len() {
        return false;
    }
    let n: usize = x.len();
    let mut i: usize = 0;
    while i < n
        invariant
            n == x@.len(),
            n == y@.len(),
            i <= n,
            x@ == vstd::utf8::encode_utf8(a@),
            y@ == vstd::utf8::encode_utf8(b@),
            forall|j: int| 0 <= j < i ==> x@[j] == y@[j],
        decreases n - i,
    {
        if x[i] != y[i] {
            return false;
        }
        i += 1;
    }
    proof {
        assert(x@ =~= y@);
        lemma_same_encoding(a@, b@);
    }
    true
}

/// Whether an optional text is present and holds exactly these characters.
pub fn is_text(a: &Option<String>, b: &str) -> (r: bool)
    ensures
        r == (text_of(*a) == Some(b@)),
{
    match a {
        Some(a) => same(a.as_str(), b),
        None => false,
    }
}

/// Whether a character has the Unicode `White_Space` property.
pub fn white(c: char) -> (r: bool)
    ensures
        r == is_white(c),
{
    let n: u32 = c as u32;
    (0x9 <= n && n <= 0xd) || n == 0x20 || n == 0x85 || n == 0xa0 || n == 0x1680 || (0x2000 <= n
        && n <= 0x200a) || n == 0x2028 || n == 0x2029 || n == 0x202f || n == 0x205f || n == 0x3000
}

/// Whether a text holds nothing but white space.
pub fn is_blank(s: &str) -> (r: bool)
    ensures
        r == blank(s@),
{
    let chars = chars_of(s);
    let mut i: usize = 0;
    while i < chars.len()
        invariant
            chars@ == s@,
            i <= chars@.len(),
            forall|j: int| 0 <= j < i ==> is_white(#[trigger] s@[j]),
        decreases chars@.len() - i,
    {
        if !white(chars[i]) {
            return false;
        }
        i += 1;
    }
    true
}

/// A text without the white space around it.
pub fn trimmed(s: &str) -> (r: String)
    ensures
        r@ == trim(s@),
{
    let chars = chars_of(s);
    let n: usize = chars.len();
    let mut from: usize = 0;
    assert(s@.subrange(0, n as int) =~= s@);
    while from < n && white(chars[from])
        invariant
            chars@ == s@,
            n == s@.len(),
            from <= n,
            trim_start(s@) == trim_start(s@.subrange(from as int, n as int)),
        decreases n - from,
    {
        proof {
            let t = s@.subrange(from as int, n as int);
            assert(t.subrange(1, t.len() as int) =~= s@.subrange(from + 1, n as int));
        }
        from += 1;
    }
    let ghost t = s@.subrange(from as int, n as int);
    assert(trim_start(s@) == t);
    let mut to: usize = n;
    while from < to && white(chars[to - 1])
        invariant
            chars@ == s@,
            n == s@.len(),
            from <= to <= n,
            t == s@.subrange(from as int, n as int),
            trim_end(t) == trim_end(s@.subrange(from as int, to as int)),
        decreases to - from,
    {
        proof {
            let u = s@.subrange(from as int, to as int);
            assert(u.drop_last() =~= s@.subrange(from as int, to - 1));
        }
        to -= 1;
    }
    string_of(&chars, from, to)
}

/// A text without the white space at its end.
pub fn trimmed_end(s: &str) -> (r: String)
    ensures
        r@ == trim_end(s@),
{
    let chars = chars_of(s);
    let mut to: usize = chars.len();
    assert(s@.subrange(0, to as int) =~= s@);
    while 0 < to && white(chars[to - 1])
        invariant
            chars@ == s@,
            to <= s@.len(),
            trim_end(s@) == trim_end(s@.subrange(0, to as int)),
        decreases to,
    {
        assert(s@.subrange(0, to as int).drop_last() =~= s@.subrange(0, to - 1));
        to -= 1;
    }
    string_of(&chars, 0, to)
}

/// Append a number in decimal.
pub fn push_dec(out: &mut String, n: u64)
    ensures
        final(out)@ == old(out)@ + dec(n as nat),
    decreases n,
{
    if n >= 10 {
        push_dec(out, n / 10);
    }
    let d: u8 = (n % 10) as u8;
    let c: char = (48u8 + d) as char;
    out.push(c);
    assert(out@ =~= old(out)@ + dec(n as nat));
}

/// A number in decimal.
pub fn dec_text(n: u64) -> (r: String)
    ensures
        r@ == dec(n as nat),
{
    let mut out: String = String::new();
    push_dec(&mut out, n);
    assert(out@ =~= dec(n as nat));
    out
}

/// A signed number in decimal.
pub fn dec_int_text(n: i64) -> (r: String)
    ensures
        r@ == dec_int(n as int),
{
    let mut out: String = String::new();
    if n < 0 {
        out.push('-');
        let m: u64 = if n == i64::MIN {
            9_223_372_036_854_775_808
        } else {
            (-n) as u64
        };
        push_dec(&mut out, m);
    } else {
        push_dec(&mut out, n as u64);
    }
    assert(out@ =~= dec_int(n as int));
    out
}

/// Whether a text holds a character.
pub fn holds(s: &str, c: char) -> (r: bool)
    ensures
        r == s@.contains(c),
{
    let chars = chars_of(s);
    let mut i: usize = 0;
    while i < chars.len()
        invariant
            chars@ == s@,
            i <= chars@.len(),
            forall|j: int| 0 <= j < i ==> s@[j] != c,
        decreases chars@.len() - i,
    {
        if chars[i] == c {
            assert(s@[i as int] == c);
            return true;
        }
        i += 1;
    }
    false
}

/// The strings of a list in order, with a separator between each two.
pub fn joined(parts: &Vec<String>, sep: &str) -> (r: String)
    ensures
        r@ == join(texts(parts@), sep@),
{
    let mut out: String = String::new();
    let mut i: usize = 0;
    while i < parts.len()
        invariant
            i <= parts@.len(),
            out@ == join(texts(parts@).take(i as int), sep@),
        decreases parts@.len() - i,
    {
        let ghost before = texts(parts@).take(i as int);
        let ghost after = texts(parts@).take(i + 1);
        if i > 0 {
            out.append(sep);
        }
        out.append(parts[i].as_str());
        proof {
            assert(after.drop_last() =~= before);
            assert(after.last() == parts@[i as int]@);
            if i == 0 {
                assert(out@ =~= after[0]);
            }
        }
        i += 1;
    }
    assert(texts(parts@).take(parts@.len() as int) =~= texts(parts@));
    out
}

/// Whether one text comes before another.
pub fn before(a: &str, b: &str) -> (r: bool)
    ensures
        r == precedes(a@, b@),
{
    let x = chars_of(a);
    let y = chars_of(b);
    let mut i: usize = 0;
    proof {
        assert(a@.subrange(0, a@.len() as int) =~= a@);
        assert(b@.subrange(0, b@.len() as int) =~= b@);
    }
    while i < x.len() && i < y.len()
        invariant
            x@ == a@,
            y@ == b@,
            i <= x@.len(),
            i <= y@.len(),
            precedes(a@, b@) == precedes(
                a@.subrange(i as int, a@.len() as int),
                b@.subrange(i as int, b@.len() as int),
            ),
        decreases x@.len() - i,
    {
        let ghost u = a@.subrange(i as int, a@.len() as int);
        let ghost v = b@.subrange(i as int, b@.len() as int);
        if x[i] != y[i] {
            assert(u[0] == x@[i as int] && v[0] == y@[i as int]);
            return (x[i] as u32) < (y[i] as u32);
        }
        proof {
            assert(u.subrange(1, u.len() as int) =~= a@.subrange(i + 1, a@.len() as int));
            assert(v.subrange(1, v.len() as int) =~= b@.subrange(i + 1, b@.len() as int));
        }
        i += 1;
    }
    i < y.len()
}

/// Whether one text begins with another.
pub fn begins(s: &str, prefix: &str) -> (r: bool)
    ensures
        r == starts_with(s@, prefix@),
{
    let x = chars_of(s);
    let y = chars_of(prefix);
    if y.len() > x.len() {
        return false;
    }
    let mut i: usize = 0;
    while i < y.len()
        invariant
            x@ == s@,
            y@ == prefix@,
            y@.len() <= x@.len(),
            i <= y@.len(),
            forall|j: int| 0 <= j < i ==> x@[j] == y@[j],
        decreases y@.len() - i,
    {
        if x[i] != y[i] {
            proof {
                let p = s@.subrange(0, prefix@.len() as int);
                assert(p[i as int] != prefix@[i as int]);
            }
            return false;
        }
        i += 1;
    }
    assert(s@.subrange(0, prefix@.len() as int) =~= prefix@);
    true
}

/// The character-wise order is irreflexive.
pub proof fn lemma_precedes_irreflexive(a: Seq<char>)
    ensures
        !precedes(a, a),
    decreases a.len(),
{
    if a.len() > 0 {
        lemma_precedes_irreflexive(a.subrange(1, a.len() as int));
    }
}

/// The character-wise order is transitive.
pub proof fn lemma_precedes_transitive(a: Seq<char>, b: Seq<char>, c: Seq<char>)
    requires
        precedes(a, b),
        precedes(b, c),
    ensures
        precedes(a, c),
    decreases b.len(),
{
    if a.len() > 0 && a[0] == b[0] && b[0] == c[0] {
        lemma_precedes_transitive(
            a.subrange(1, a.len() as int),
            b.subrange(1, b.len() as int),
            c.subrange(1, c.len() as int),
        );
    }
}

/// The character-wise order is total.
pub proof fn lemma_precedes_total(a: Seq<char>, b: Seq<char>)
    ensures
        a == b || precedes(a, b) || precedes(b, a),
    decreases a.len(),
{
    if a.len() == 0 {
        if b.len() == 0 {
            assert(a =~= b);
        }
    } else if b.len() > 0 && a[0] != b[0] {
        vstd::utf8::char_u32_cast(a[0], a[0] as u32);
        vstd::utf8::char_u32_cast(b[0], b[0] as u32);
    } else if b.len() > 0 {
        let u = a.subrange(1, a.len() as int);
        let v = b.subrange(1, b.len() as int);
        lemma_precedes_total(u, v);
        if u == v {
            assert(a =~= seq![a[0]] + u);
            assert(b =~= seq![b[0]] + v);
        }
    }
}

/// Decimal is a faithful name: two numbers written alike are one number.
pub proof fn lemma_dec_injective(a: nat, b: nat)
    requires
        dec(a) == dec(b),
    ensures
        a == b,
    decreases a,
{
    lemma_dec_len(a);
    lemma_dec_len(b);
    assert(dec(a).last() == digit(a % 10));
    assert(dec(b).last() == digit(b % 10));
    assert(a % 10 == b % 10);
    if a < 10 {
        if b >= 10 {
            lemma_dec_len(b / 10);
            assert(dec(b).len() == dec(b / 10).len() + 1);
        }
    } else {
        if b < 10 {
            lemma_dec_len(a / 10);
            assert(dec(a).len() == dec(a / 10).len() + 1);
        } else {
            assert(dec(a).drop_last() =~= dec(a / 10));
            assert(dec(b).drop_last() =~= dec(b / 10));
            lemma_dec_injective(a / 10, b / 10);
        }
    }
}

proof fn lemma_dec_len(a: nat)
    ensures
        dec(a).len() >= 1,
    decreases a,
{
}

/// A control character: the ones that would break a line or a terminal.
pub open spec fn is_control(c: char) -> bool {
    (c as u32) <= 0x1f || 0x7f <= (c as u32) <= 0x9f
}

/// Text folded onto one line: every control character becomes a space.
pub open spec fn one_lined(s: Seq<char>) -> Seq<char> {
    s.map_values(|c: char| if is_control(c) { ' ' } else { c })
}

/// The most characters a payload text this library writes may carry.
pub const TEXT_LIMIT: usize = 2000;

/// Text held to the bound every payload text is held to.
pub open spec fn bound(s: Seq<char>) -> Seq<char> {
    if s.len() <= TEXT_LIMIT {
        s
    } else {
        s.take(TEXT_LIMIT - 1).push('…')
    }
}

/// Text folded onto one line, as every view renders a relayed value.
pub fn one_line(s: &str) -> (r: String)
    ensures
        r@ == one_lined(s@),
{
    let chars = chars_of(s);
    let mut out: String = String::new();
    let mut i: usize = 0;
    while i < chars.len()
        invariant
            chars@ == s@,
            i <= chars@.len(),
            out@ == one_lined(s@).take(i as int),
        decreases chars@.len() - i,
    {
        let n: u32 = chars[i] as u32;
        let c: char = if n <= 0x1f || (0x7f <= n && n <= 0x9f) {
            ' '
        } else {
            chars[i]
        };
        out.push(c);
        i += 1;
        assert(out@ =~= one_lined(s@).take(i as int));
    }
    assert(out@ =~= one_lined(s@));
    out
}

/// Text held to the bound every payload text is held to.
pub fn bounded(s: &str) -> (r: String)
    ensures
        r@ == bound(s@),
{
    let chars = chars_of(s);
    if chars.len() <= TEXT_LIMIT {
        return s.to_owned();
    }
    let mut out = string_of(&chars, 0, TEXT_LIMIT - 1);
    out.push('…');
    assert(out@ =~= bound(s@));
    out
}

/// Where the line that starts at a position ends.
pub open spec fn line_end(s: Seq<char>, from: int) -> int
    decreases s.len() - from,
{
    if from >= s.len() {
        s.len() as int
    } else if s[from] == '\n' {
        from
    } else {
        line_end(s, from + 1)
    }
}

/// A line without the carriage return that may stand before its line feed.
pub open spec fn strip_return(s: Seq<char>) -> Seq<char> {
    if s.len() > 0 && s.last() == '\r' {
        s.drop_last()
    } else {
        s
    }
}

/// The lines of a text from a position on: each ends at a line feed or at the
/// end of the text, and a text that ends in a line feed has no line after it.
pub open spec fn lines_from(s: Seq<char>, from: int) -> Seq<Seq<char>>
    decreases s.len() - from,
{
    if from < 0 || from >= s.len() {
        Seq::empty()
    } else {
        let end = line_end(s, from);
        if end < from || end >= s.len() {
            seq![s.subrange(from, s.len() as int)]
        } else {
            seq![strip_return(s.subrange(from, end))] + lines_from(s, end + 1)
        }
    }
}

/// The lines of a text.
pub open spec fn lines(s: Seq<char>) -> Seq<Seq<char>> {
    lines_from(s, 0)
}

/// The lines of a text.
pub fn lines_of(s: &str) -> (r: Vec<String>)
    ensures
        texts(r@) == lines(s@),
{
    let chars = chars_of(s);
    let n: usize = chars.len();
    let mut out: Vec<String> = Vec::new();
    let mut from: usize = 0;
    assert(lines(s@) =~= texts(out@) + lines_from(s@, 0));
    while from < n
        invariant
            chars@ == s@,
            n == s@.len(),
            from <= n,
            lines(s@) == texts(out@) + lines_from(s@, from as int),
        decreases n - from,
    {
        let mut end: usize = from;
        while end < n && chars[end] != '\n'
            invariant
                chars@ == s@,
                n == s@.len(),
                from <= end <= n,
                line_end(s@, from as int) == line_end(s@, end as int),
            decreases n - end,
        {
            end += 1;
        }
        let ghost was = texts(out@);
        let ghost rest = lines_from(s@, from as int);
        let mut to: usize = end;
        if end < n && from < end && chars[end - 1] == '\r' {
            to = end - 1;
        }
        let line = string_of(&chars, from, to);
        proof {
            let whole = s@.subrange(from as int, end as int);
            if end < n {
                assert(line@ =~= strip_return(whole));
            } else {
                assert(line@ =~= s@.subrange(from as int, n as int));
            }
        }
        out.push(line);
        let next: usize = if end < n {
            end + 1
        } else {
            n
        };
        proof {
            assert(texts(out@) =~= was.push(line@));
            assert(rest =~= seq![line@] + lines_from(s@, next as int));
            assert(was + rest =~= texts(out@) + lines_from(s@, next as int));
        }
        from = next;
    }
    assert(texts(out@) + lines_from(s@, n as int) =~= texts(out@));
    out
}

/// A decimal digit.
pub open spec fn is_digit(c: char) -> bool {
    '0' as u32 <= c as u32 && c as u32 <= '9' as u32
}

/// Every character is a decimal digit.
pub open spec fn all_digits(s: Seq<char>) -> bool {
    forall|i: int| 0 <= i < s.len() ==> is_digit(#[trigger] s[i])
}

/// The number a text of digits spells.
pub open spec fn value_of(s: Seq<char>) -> nat
    decreases s.len(),
{
    if s.len() == 0 {
        0
    } else {
        value_of(s.drop_last()) * 10 + (s.last() as u32 - '0' as u32) as nat
    }
}

/// The unsigned 64-bit number a text spells: digits, with a plus sign allowed
/// before them, that fit.
pub open spec fn read_u64(s: Seq<char>) -> Option<u64> {
    let digits = if s.len() > 0 && s[0] == '+' {
        s.subrange(1, s.len() as int)
    } else {
        s
    };
    if digits.len() > 0 && all_digits(digits) && value_of(digits) <= u64::MAX {
        Some(value_of(digits) as u64)
    } else {
        None
    }
}

/// A number reads back from the digits it is written in.
pub proof fn lemma_dec_reads(n: nat)
    ensures
        dec(n).len() > 0,
        all_digits(dec(n)),
        value_of(dec(n)) == n,
    decreases n,
{
    if n < 10 {
        assert(dec(n).drop_last() =~= Seq::<char>::empty());
        assert(value_of(dec(n).drop_last()) == 0);
    } else {
        lemma_dec_reads(n / 10);
        assert(dec(n).drop_last() =~= dec(n / 10));
        assert forall|i: int| 0 <= i < dec(n).len() implies is_digit(#[trigger] dec(n)[i]) by {
            if i < dec(n / 10).len() {
                assert(dec(n)[i] == dec(n / 10)[i]);
            }
        }
    }
}

proof fn lemma_value_grows(s: Seq<char>, n: int)
    requires
        0 <= n <= s.len(),
    ensures
        value_of(s.take(n)) <= value_of(s),
    decreases s.len(),
{
    if n == s.len() {
        assert(s.take(n) =~= s);
    } else {
        assert(s.drop_last().take(n) =~= s.take(n));
        lemma_value_grows(s.drop_last(), n);
    }
}

/// The unsigned 64-bit number a text spells, where it spells one.
pub fn parse_u64(s: &str) -> (r: Option<u64>)
    ensures
        r == read_u64(s@),
{
    let chars = chars_of(s);
    let start: usize = if chars.len() > 0 && chars[0] == '+' {
        1
    } else {
        0
    };
    let ghost digits = s@.subrange(start as int, s@.len() as int);
    proof {
        if start == 0 {
            assert(digits =~= s@);
        }
    }
    if start == chars.len() {
        return None;
    }
    let mut n: u64 = 0;
    let mut i: usize = start;
    while i < chars.len()
        invariant
            chars@ == s@,
            start <= 1,
            start <= i <= chars@.len(),
            digits == s@.subrange(start as int, s@.len() as int),
            read_u64(s@) == (if digits.len() > 0 && all_digits(digits) && value_of(digits)
                <= u64::MAX {
                Some(value_of(digits) as u64)
            } else {
                None
            }),
            n == value_of(digits.take(i - start)),
            forall|j: int| 0 <= j < i - start ==> is_digit(#[trigger] digits[j]),
        decreases chars@.len() - i,
    {
        let c: u32 = chars[i] as u32;
        assert(digits[i - start] == chars@[i as int]);
        if c < 48 || c > 57 {
            return None;
        }
        let d: u64 = (c - 48) as u64;
        proof {
            let more = digits.take(i + 1 - start);
            assert(more.drop_last() =~= digits.take(i - start));
            assert(more.last() == chars@[i as int]);
            lemma_value_grows(digits, i + 1 - start);
        }
        if n > 1_844_674_407_370_955_161 || (n == 1_844_674_407_370_955_161 && d > 5) {
            return None;
        }
        n = n * 10 + d;
        i += 1;
    }
    proof {
        assert(digits.take(i - start) =~= digits);
    }
    Some(n)
}

/// Where the white space from a position on ends.
pub open spec fn word_start(s: Seq<char>, from: int) -> int
    decreases s.len() - from,
{
    if from < 0 || from >= s.len() || !is_white(s[from]) {
        from
    } else {
        word_start(s, from + 1)
    }
}

/// Where the word from a position on ends.
pub open spec fn word_end(s: Seq<char>, from: int) -> int
    decreases s.len() - from,
{
    if from < 0 || from >= s.len() || is_white(s[from]) {
        from
    } else {
        word_end(s, from + 1)
    }
}

/// The first word of a text, where it has one.
pub open spec fn leading_word(s: Seq<char>) -> Option<Seq<char>> {
    let start = word_start(s, 0);
    if start >= s.len() {
        None
    } else {
        Some(s.subrange(start, word_end(s, start)))
    }
}

/// The first word of a text, where it has one.
pub fn first_word(s: &str) -> (r: Option<String>)
    ensures
        text_of(r) == leading_word(s@),
{
    let chars = chars_of(s);
    let mut start: usize = 0;
    while start < chars.len() && white(chars[start])
        invariant
            chars@ == s@,
            start <= chars@.len(),
            word_start(s@, 0) == word_start(s@, start as int),
        decreases chars@.len() - start,
    {
        start += 1;
    }
    if start == chars.len() {
        return None;
    }
    let mut end: usize = start;
    while end < chars.len() && !white(chars[end])
        invariant
            chars@ == s@,
            start <= end <= chars@.len(),
            word_end(s@, start as int) == word_end(s@, end as int),
        decreases chars@.len() - end,
    {
        end += 1;
    }
    Some(string_of(&chars, start, end))
}

/// White space is what a reader would take for it: the tab, the line and form feeds, the
/// carriage return and the space, and the spacing characters beyond ASCII; no letter,
/// digit or other printable ASCII character is.
pub proof fn law_what_is_white(c: char)
    ensures
        c == ' ' || c == '\t' || c == '\n' || c == '\r' || c == '\u{b}' || c == '\u{c}' || c
            == '\u{85}' || c == '\u{a0}' || c == '\u{1680}' || c == '\u{2028}' || c == '\u{2029}'
            || c == '\u{202f}' || c == '\u{205f}' || c == '\u{3000}' || '\u{2000}' <= c <= '\u{200a}'
            <==> is_white(c),
        '!' <= c <= '~' ==> !is_white(c),
{
}

proof fn lemma_trim_start(s: Seq<char>)
    ensures
        trim_start(s).len() <= s.len(),
        s.skip(s.len() - trim_start(s).len()) == trim_start(s),
        blank(s.take(s.len() - trim_start(s).len())),
        trim_start(s).len() > 0 ==> !is_white(trim_start(s)[0]),
    decreases s.len(),
{
    if s.len() > 0 && is_white(s[0]) {
        let rest = s.subrange(1, s.len() as int);
        lemma_trim_start(rest);
        let cut = rest.len() - trim_start(rest).len();
        assert(s.skip(cut + 1) =~= rest.skip(cut));
        assert forall|i: int| 0 <= i < cut + 1 implies is_white(#[trigger] s.take(cut + 1)[i]) by {
            if i > 0 {
                assert(rest.take(cut)[i - 1] == s[i]);
            }
        }
    } else {
        assert(s.skip(0) =~= s);
    }
}

proof fn lemma_trim_end(s: Seq<char>)
    ensures
        trim_end(s).len() <= s.len(),
        s.take(trim_end(s).len() as int) == trim_end(s),
        blank(s.skip(trim_end(s).len() as int)),
        trim_end(s).len() > 0 ==> !is_white(trim_end(s).last()),
    decreases s.len(),
{
    if s.len() > 0 && is_white(s.last()) {
        let rest = s.drop_last();
        lemma_trim_end(rest);
        let kept = trim_end(rest).len() as int;
        assert(s.take(kept) =~= rest.take(kept));
        assert forall|i: int| 0 <= i < s.len() - kept implies is_white(
            #[trigger] s.skip(kept)[i],
        ) by {
            if i < rest.len() - kept {
                assert(rest.skip(kept)[i] == s[i + kept]);
            }
        }
    } else {
        assert(s.take(s.len() as int) =~= s);
    }
}

/// Trimming takes white space off both ends and nothing else: what it leaves stands in the
/// text between two blanks, and neither begins nor ends with white space. A blank text is
/// one that trims to nothing.
pub proof fn law_trimming_takes_white_space_off_the_ends(s: Seq<char>)
    ensures
        exists|from: int, to: int|
            0 <= from <= to <= s.len() && trim(s) == #[trigger] s.subrange(from, to) && (forall|
                i: int,
            |
                0 <= i < from ==> is_white(#[trigger] s[i])) && (forall|i: int|
                to <= i < s.len() ==> is_white(#[trigger] s[i])),
        trim(s).len() > 0 ==> !is_white(trim(s)[0]) && !is_white(trim(s).last()),
        blank(s) <==> trim(s).len() == 0,
        blank(s) <==> forall|i: int| 0 <= i < s.len() ==> is_white(#[trigger] s[i]),
{
    lemma_trim_start(s);
    let t = trim_start(s);
    lemma_trim_end(t);
    let from = s.len() - t.len();
    let to = from + trim(s).len();
    assert(s.subrange(from, to) =~= trim(s)) by {
        assert(t =~= s.skip(from));
        assert(trim(s) =~= t.take(trim(s).len() as int));
    }
    assert forall|i: int| 0 <= i < from implies is_white(#[trigger] s[i]) by {
        assert(s.take(from)[i] == s[i]);
    }
    assert forall|i: int| to <= i < s.len() implies is_white(#[trigger] s[i]) by {
        assert(t.skip(trim(s).len() as int)[i - to] == s[i]);
    }
    if trim(s).len() > 0 {
        assert(trim(s)[0] == t[0]);
        assert(trim(s)[0] == s[from]);
    } else {
        assert(from == to);
    }
}

/// Trimming the end takes white space off the end and nothing else.
pub proof fn law_trimming_the_end_keeps_the_beginning(s: Seq<char>)
    ensures
        trim_end(s).len() <= s.len(),
        trim_end(s) == s.take(trim_end(s).len() as int),
        forall|i: int| trim_end(s).len() <= i < s.len() ==> is_white(#[trigger] s[i]),
        trim_end(s).len() > 0 ==> !is_white(trim_end(s).last()),
{
    lemma_trim_end(s);
    let kept = trim_end(s).len() as int;
    assert forall|i: int| kept <= i < s.len() implies is_white(#[trigger] s[i]) by {
        assert(s.skip(kept)[i - kept] == s[i]);
    }
}

/// One line stays one line: folding keeps every character but the control characters, the
/// line feed, the tab and the escape among them, and puts a space for each of those.
pub proof fn law_folding_leaves_one_line(s: Seq<char>)
    ensures
        one_lined(s).len() == s.len(),
        forall|i: int|
            0 <= i < s.len() ==> {
                let c = #[trigger] s[i];
                one_lined(s)[i] == if c as u32 <= 0x1f || 0x7f <= c as u32 <= 0x9f { ' ' } else { c }
            },
        !one_lined(s).contains('\n'),
        one_lined(one_lined(s)) == one_lined(s),
{
    assert forall|i: int| 0 <= i < one_lined(s).len() implies #[trigger] one_lined(s)[i] != '\n' by {
        assert(s[i] == s[i]);
    }
    assert(one_lined(one_lined(s)) =~= one_lined(s));
}

/// A text that fits its bound is kept whole; a longer one is cut to two thousand
/// characters, the last of which says that it was cut.
pub proof fn law_a_bounded_text_keeps_its_beginning(s: Seq<char>)
    ensures
        bound(s).len() <= 2000,
        s.len() <= 2000 ==> bound(s) == s,
        s.len() > 2000 ==> bound(s).len() == 2000 && bound(s)[1999] == '…' && bound(s).take(1999)
            == s.take(1999),
{
    if s.len() > 2000 {
        assert(bound(s).take(1999) =~= s.take(1999));
    }
}

proof fn lemma_line_end(s: Seq<char>, from: int)
    requires
        0 <= from <= s.len(),
    ensures
        from <= line_end(s, from) <= s.len(),
        line_end(s, from) < s.len() ==> s[line_end(s, from)] == '\n',
        forall|i: int| from <= i < line_end(s, from) ==> #[trigger] s[i] != '\n',
    decreases s.len() - from,
{
    if from < s.len() && s[from] != '\n' {
        lemma_line_end(s, from + 1);
    }
}

/// The lines of a text are what stands between its line feeds: the first ends at the first
/// line feed, less a carriage return before it, and the others are the lines of what
/// follows it. A text without a line feed is one line as it stands, and a text that holds
/// nothing has no line.
pub proof fn law_lines_stand_between_line_feeds(s: Seq<char>, from: int, end: int)
    requires
        0 <= from <= end < s.len(),
        s[end] == '\n',
        forall|i: int| from <= i < end ==> #[trigger] s[i] != '\n',
    ensures
        lines_from(s, from).len() == 1 + lines_from(s, end + 1).len(),
        lines_from(s, from)[0] == (if end > from && s[end - 1] == '\r' {
            s.subrange(from, end - 1)
        } else {
            s.subrange(from, end)
        }),
        forall|k: int|
            0 <= k < lines_from(s, end + 1).len() ==> #[trigger] lines_from(s, from)[k + 1]
                == lines_from(s, end + 1)[k],
{
    lemma_line_end(s, from);
    let e = line_end(s, from);
    if e < end {
        assert(s[e] != '\n');
    }
    if e > end {
        assert(s[end] != '\n');
    }
    let line = s.subrange(from, end);
    if end > from && s[end - 1] == '\r' {
        assert(line.drop_last() =~= s.subrange(from, end - 1));
    }
}

/// What is left of a text behind its last line feed is its last line, as it stands, where
/// anything is.
pub proof fn law_the_last_line_is_what_is_left(s: Seq<char>, from: int)
    requires
        0 <= from <= s.len(),
        forall|i: int| from <= i < s.len() ==> #[trigger] s[i] != '\n',
    ensures
        from < s.len() ==> lines_from(s, from) == seq![s.subrange(from, s.len() as int)],
        from == s.len() ==> lines_from(s, from).len() == 0,
        lines(s) == lines_from(s, 0),
{
    lemma_line_end(s, from);
    let e = line_end(s, from);
    if e < s.len() {
        assert(s[e] != '\n');
    }
}

/// A number is read from exactly the texts that spell one: at least one digit, nothing but
/// digits behind an optional plus, and no more than 64 bits hold; what a number is written
/// as reads back as that number.
pub proof fn law_a_number_is_read_from_its_digits(s: Seq<char>, n: u64)
    ensures
        read_u64(dec(n as nat)) == Some(n),
        read_u64(seq!['+'] + dec(n as nat)) == Some(n),
        s.len() == 0 ==> read_u64(s) is None,
        (exists|i: int| 1 <= i < s.len() && !('0' as u32 <= #[trigger] s[i] as u32 <= '9' as u32)) ==> read_u64(s) is None,
        s.len() > 0 && s[0] != '+' && !('0' as u32 <= s[0] as u32 <= '9' as u32) ==> read_u64(s) is None,
        s.len() == 1 && s[0] == '+' ==> read_u64(s) is None,
{
    lemma_dec_reads(n as nat);
    let d = dec(n as nat);
    assert(is_digit(d[0]));
    let signed = seq!['+'] + d;
    assert(signed.subrange(1, signed.len() as int) =~= d);
    if exists|i: int| 1 <= i < s.len() && !('0' as u32 <= #[trigger] s[i] as u32 <= '9' as u32) {
        let i = choose|i: int| 1 <= i < s.len() && !('0' as u32 <= #[trigger] s[i] as u32 <= '9' as u32);
        let rest = s.subrange(1, s.len() as int);
        assert(rest[i - 1] == s[i]);
        assert(!all_digits(rest));
        assert(!all_digits(s));
    }
    if s.len() > 0 && s[0] != '+' && !('0' as u32 <= s[0] as u32 <= '9' as u32) {
        assert(!is_digit(s[0]));
        assert(!all_digits(s));
    }
}

/// The order of texts is decided by the first character they differ in, and where one is
/// the beginning of the other the shorter comes first.
pub proof fn law_the_first_difference_decides(a: Seq<char>, b: Seq<char>, k: int)
    requires
        0 <= k <= a.len(),
        k <= b.len(),
        forall|i: int| 0 <= i < k ==> #[trigger] a[i] == b[i],
    ensures
        k < a.len() && k < b.len() && a[k] != b[k] ==> (precedes(a, b) <==> (a[k] as u32) < (b[k] as u32)),
        k == a.len() && k < b.len() ==> precedes(a, b),
        k == b.len() ==> !precedes(a, b),
    decreases k,
{
    if k > 0 {
        let x = a.subrange(1, a.len() as int);
        let y = b.subrange(1, b.len() as int);
        assert forall|i: int| 0 <= i < k - 1 implies #[trigger] x[i] == y[i] by {
            assert(x[i] == a[i + 1] && y[i] == b[i + 1]);
        }
        law_the_first_difference_decides(x, y, k - 1);
        assert(a[0] == b[0]);
    }
}

proof fn lemma_word_bounds(s: Seq<char>, from: int)
    requires
        0 <= from <= s.len(),
    ensures
        from <= word_start(s, from) <= s.len(),
        forall|i: int| from <= i < word_start(s, from) ==> is_white(#[trigger] s[i]),
        word_start(s, from) < s.len() ==> !is_white(s[word_start(s, from)]),
        from <= word_end(s, from) <= s.len(),
        forall|i: int| from <= i < word_end(s, from) ==> !is_white(#[trigger] s[i]),
        word_end(s, from) < s.len() ==> is_white(s[word_end(s, from)]),
    decreases s.len() - from,
{
    if from < s.len() {
        lemma_word_bounds(s, from + 1);
    }
}

/// The first word of a text is its first run of characters that are not white space, as
/// far as it goes; only a blank text has none.
pub proof fn law_the_first_word_is_the_first_run(s: Seq<char>)
    ensures
        leading_word(s) is None <==> blank(s),
        leading_word(s) matches Some(word) ==> exists|from: int, to: int|
            0 <= from < to <= s.len() && word == #[trigger] s.subrange(from, to) && (forall|i: int|
                0 <= i < from ==> is_white(#[trigger] s[i])) && (forall|i: int|
                from <= i < to ==> !is_white(#[trigger] s[i])) && (to < s.len() ==> is_white(
                s[to],
            )),
{
    lemma_word_bounds(s, 0);
    let from = word_start(s, 0);
    lemma_word_bounds(s, from);
    if from < s.len() {
        assert(!is_white(s[from]));
        let to = word_end(s, from);
        assert(s.subrange(from, to) == s.subrange(from, to));
    }
}

/// Joining puts the separator between every two parts and nowhere else: what is joined
/// with one more part is what was, the separator and that part.
pub proof fn law_joining_separates_every_two(parts: Seq<Seq<char>>, sep: Seq<char>, one: Seq<char>)
    ensures
        join(Seq::empty(), sep) == Seq::<char>::empty(),
        join(seq![one], sep) == one,
        parts.len() > 0 ==> join(parts.push(one), sep) == join(parts, sep) + sep + one,
{
    assert(parts.push(one).drop_last() =~= parts);
}

/// Decimal is written in digits without a leading zero, and a negative number with a sign.
pub proof fn law_decimal_has_no_leading_zero(n: nat)
    ensures
        n >= 10 ==> dec(n)[0] != '0',
        n < 10 ==> dec(n).len() == 1,
        dec_int(-(n as int)) == (if n > 0 {
            seq!['-'] + dec(n)
        } else {
            dec(n)
        }),
        dec_int(n as int) == dec(n),
    decreases n,
{
    if n >= 10 {
        law_decimal_has_no_leading_zero(n / 10);
        lemma_dec_reads(n / 10);
        assert(dec(n)[0] == dec(n / 10)[0]);
    }
}

/// A list of strings is seen string by string, and an optional one as what it holds.
pub proof fn law_strings_are_seen_as_they_stand(list: Seq<String>, one: Option<String>)
    ensures
        texts(list).len() == list.len(),
        forall|i: int| 0 <= i < list.len() ==> #[trigger] texts(list)[i] == list[i]@,
        one is None <==> text_of(one) is None,
        one matches Some(s) ==> text_of(one) == Some(s@),
{
}

} // verus!
