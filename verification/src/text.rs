//! Character-level text helpers shared by the parsers and message builders: comparison,
//! decimal rendering, joining, quoting.
use vstd::prelude::*;

verus! {

/// Decimal digit character of `d` (0..=9).
pub open spec fn digit_char(d: nat) -> char {
    if d == 0 { '0' }
    else if d == 1 { '1' }
    else if d == 2 { '2' }
    else if d == 3 { '3' }
    else if d == 4 { '4' }
    else if d == 5 { '5' }
    else if d == 6 { '6' }
    else if d == 7 { '7' }
    else if d == 8 { '8' }
    else { '9' }
}

/// Shortest decimal rendering of `n` (no sign, no leading zeros).
pub open spec fn decimal(n: nat) -> Seq<char>
    decreases n,
{
    if n < 10 {
        seq![digit_char(n)]
    } else {
        decimal(n / 10).push(digit_char(n % 10))
    }
}

/// `items` joined by `sep`.
pub open spec fn join(items: Seq<Seq<char>>, sep: Seq<char>) -> Seq<char>
    decreases items.len(),
{
    if items.len() == 0 {
        Seq::empty()
    } else if items.len() == 1 {
        items[0]
    } else {
        join(items.drop_last(), sep) + sep + items.last()
    }
}

/// Whether `needle` occurs in `hay` at position `i`.
pub open spec fn occurs_at(hay: Seq<char>, needle: Seq<char>, i: int) -> bool {
    0 <= i && i + needle.len() <= hay.len() && hay.subrange(i, i + needle.len()) == needle
}

/// Whether `needle` occurs anywhere in `hay`.
pub open spec fn contains_seq(hay: Seq<char>, needle: Seq<char>) -> bool {
    exists|i: int| occurs_at(hay, needle, i)
}

/// Whether `s` ends with `suffix`.
pub open spec fn ends_with(s: Seq<char>, suffix: Seq<char>) -> bool {
    suffix.len() <= s.len() && s.subrange(s.len() - suffix.len(), s.len() as int) == suffix
}

/// ASCII lower-casing of one character (other characters unchanged).
pub open spec fn ascii_lower(c: char) -> char {
    if 'A' <= c <= 'Z' {
        ((c as u32) + 32) as char
    } else {
        c
    }
}

/// ASCII lower-casing of a whole text.
pub open spec fn ascii_lower_seq(s: Seq<char>) -> Seq<char> {
    Seq::new(s.len(), |i: int| ascii_lower(s[i]))
}


/// The position of the last `c` in `s`.
pub open spec fn last_index(s: Seq<char>, c: char) -> Option<int>
    decreases s.len(),
{
    if s.len() == 0 {
        None
    } else if s.last() == c {
        Some(s.len() - 1)
    } else {
        last_index(s.drop_last(), c)
    }
}

/// `last_index` finds the last occurrence.
pub proof fn lemma_last_index(s: Seq<char>, c: char)
    ensures
        match last_index(s, c) {
            Some(i) => 0 <= i < s.len() && s[i] == c && forall|j: int| i < j < s.len() ==> s[j] != c,
            None => forall|j: int| 0 <= j < s.len() ==> s[j] != c,
        },
    decreases s.len(),
{
    if s.len() > 0 {
        lemma_last_index(s.drop_last(), c);
        if s.last() != c {
            assert forall|j: int| 0 <= j < s.len() - 1 implies s[j] == s.drop_last()[j] by {}
        }
    }
}

/// Lexicographic order of texts by code point (the order of `str`'s byte-wise comparison,
/// since UTF-8 keeps code point order).
pub open spec fn text_lt(a: Seq<char>, b: Seq<char>) -> bool
    decreases a.len(),
{
    if a.len() == 0 {
        b.len() > 0
    } else if b.len() == 0 {
        false
    } else if a[0] != b[0] {
        a[0] < b[0]
    } else {
        text_lt(a.drop_first(), b.drop_first())
    }
}

/// `text_lt` is a strict total order.
pub proof fn lemma_text_lt_order(a: Seq<char>, b: Seq<char>)
    ensures
        !text_lt(a, a),
        text_lt(a, b) ==> !text_lt(b, a),
        a != b ==> text_lt(a, b) || text_lt(b, a),
    decreases a.len(),
{
    if a.len() > 0 && b.len() > 0 {
        lemma_text_lt_order(a.drop_first(), b.drop_first());
        if a[0] == b[0] && a.drop_first() == b.drop_first() {
            assert(a =~= seq![a[0]] + a.drop_first());
            assert(b =~= seq![b[0]] + b.drop_first());
        }
    } else if a.len() > 0 {
    } else if b.len() > 0 {
    } else {
        assert(a =~= b);
    }
    if a.len() > 0 {
        lemma_text_lt_order(a.drop_first(), a.drop_first());
    }
}

/// `text_lt` is transitive.
pub proof fn lemma_text_lt_trans(a: Seq<char>, b: Seq<char>, c: Seq<char>)
    requires
        text_lt(a, b),
        text_lt(b, c),
    ensures
        text_lt(a, c),
    decreases a.len(),
{
    if a.len() > 0 && b.len() > 0 && c.len() > 0 && a[0] == b[0] && b[0] == c[0] {
        lemma_text_lt_trans(a.drop_first(), b.drop_first(), c.drop_first());
    }
}


/// Why a text is not an unsigned integer (std's `IntErrorKind` cases that apply).
#[derive(Debug, Clone, Copy, PartialEq, Eq, Structural)]
pub enum IntError {
    Empty,
    InvalidDigit,
    PosOverflow,
}

/// The value of a digit character in `radix` (2..=36): `0-9`, then `a-z` or `A-Z` from 10.
pub open spec fn digit_value(c: char, radix: nat) -> Option<nat> {
    let v: int = if '0' <= c <= '9' {
        c as int - '0' as int
    } else if 'a' <= c <= 'z' {
        c as int - 'a' as int + 10
    } else if 'A' <= c <= 'Z' {
        c as int - 'A' as int + 10
    } else {
        radix as int
    };
    if v < radix { Some(v as nat) } else { None }
}

/// Reading digits left to right onto `acc`: the first bad digit, or the first step past
/// `u64::MAX`, ends the scan.
pub open spec fn scan_digits(s: Seq<char>, radix: nat, acc: nat) -> Result<nat, IntError>
    decreases s.len(),
{
    if s.len() == 0 {
        Ok(acc)
    } else {
        match digit_value(s[0], radix) {
            None => Err(IntError::InvalidDigit),
            Some(d) => if acc * radix + d > u64::MAX {
                Err(IntError::PosOverflow)
            } else {
                scan_digits(s.drop_first(), radix, acc * radix + d)
            },
        }
    }
}

/// std's `u64::from_str_radix` (and `str::parse::<u64>` for radix 10): an optional `+`, then
/// at least one digit.
pub open spec fn parse_uint_spec(s: Seq<char>, radix: nat) -> Result<u64, IntError> {
    if s.len() == 0 {
        Err(IntError::Empty)
    } else {
        let t = if s[0] == '+' { s.drop_first() } else { s };
        if t.len() == 0 {
            Err(IntError::InvalidDigit)
        } else {
            match scan_digits(t, radix, 0) {
                Ok(v) => Ok(v as u64),
                Err(e) => Err(e),
            }
        }
    }
}

/// What std prints for each parse failure.
pub open spec fn int_error_text(e: IntError) -> Seq<char> {
    match e {
        IntError::Empty => "cannot parse integer from empty string"@,
        IntError::InvalidDigit => "invalid digit found in string"@,
        IntError::PosOverflow => "number too large to fit in target type"@,
    }
}

proof fn lemma_scan_bound(s: Seq<char>, radix: nat, acc: nat)
    requires
        acc <= u64::MAX,
    ensures
        scan_digits(s, radix, acc) matches Ok(v) ==> v <= u64::MAX,
    decreases s.len(),
{
    if s.len() > 0 {
        if let Some(d) = digit_value(s[0], radix) {
            if acc * radix + d <= u64::MAX {
                lemma_scan_bound(s.drop_first(), radix, acc * radix + d);
            }
        }
    }
}

proof fn lemma_scan_push(t: Seq<char>, c: char, acc: nat, v: nat, d: nat)
    requires
        scan_digits(t, 10, acc) == Ok::<nat, IntError>(v),
        digit_value(c, 10) == Some(d),
        v * 10 + d <= u64::MAX,
    ensures
        scan_digits(t.push(c), 10, acc) == Ok::<nat, IntError>(v * 10 + d),
    decreases t.len(),
{
    let tc = t.push(c);
    assert(tc.len() > 0);
    if t.len() == 0 {
        assert(v == acc);
        assert(tc[0] == c);
        assert(tc.drop_first() =~= Seq::<char>::empty());
        assert(scan_digits(tc.drop_first(), 10, acc * 10 + d) == Ok::<nat, IntError>(acc * 10 + d));
    } else {
        assert(tc[0] == t[0]);
        let d0 = digit_value(t[0], 10)->0;
        assert(digit_value(t[0], 10) is Some);
        assert(acc * 10 + d0 <= u64::MAX);
        assert(scan_digits(t.drop_first(), 10, acc * 10 + d0) == Ok::<nat, IntError>(v));
        assert(tc.drop_first() =~= t.drop_first().push(c));
        lemma_scan_push(t.drop_first(), c, acc * 10 + d0, v, d);
    }
}

proof fn lemma_decimal_digits(n: nat)
    ensures
        decimal(n).len() >= 1,
        forall|i: int| 0 <= i < decimal(n).len() ==> '0' <= #[trigger] decimal(n)[i] <= '9',
    decreases n,
{
    if n >= 10 {
        lemma_decimal_digits(n / 10);
    }
}

/// Reading back the decimal rendering of a `u64` gives the number.
pub proof fn lemma_parse_decimal(n: u64)
    ensures
        parse_uint_spec(decimal(n as nat), 10) == Ok::<u64, IntError>(n),
{
    lemma_scan_decimal(n as nat);
    lemma_decimal_digits(n as nat);
}

proof fn lemma_digit_value(d: nat)
    requires
        d < 10,
    ensures
        digit_value(digit_char(d), 10) == Some(d),
{
    if d == 0 {} else if d == 1 {} else if d == 2 {} else if d == 3 {} else if d == 4 {}
    else if d == 5 {} else if d == 6 {} else if d == 7 {} else if d == 8 {} else {}
}

proof fn lemma_scan_decimal(n: nat)
    requires
        n <= u64::MAX,
    ensures
        scan_digits(decimal(n), 10, 0) == Ok::<nat, IntError>(n),
    decreases n,
{
    if n < 10 {
        lemma_digit_value(n);
        let dn = decimal(n);
        assert(dn =~= seq![digit_char(n)]);
        assert(dn[0] == digit_char(n));
        assert(dn.drop_first() =~= Seq::<char>::empty());
        assert(scan_digits(dn.drop_first(), 10, 0 * 10 + n) == Ok::<nat, IntError>(n));
    } else {
        assert((n / 10) * 10 + n % 10 == n);
        lemma_digit_value(n % 10);
        lemma_scan_decimal(n / 10);
        lemma_scan_push(decimal(n / 10), digit_char(n % 10), 0, n / 10, n % 10);
    }
}

/// The position of the first `c` in `s`.
pub open spec fn first_index(s: Seq<char>, c: char) -> Option<int>
    decreases s.len(),
{
    if s.len() == 0 {
        None
    } else if s[0] == c {
        Some(0)
    } else {
        match first_index(s.drop_first(), c) {
            Some(i) => Some(i + 1),
            None => None,
        }
    }
}

/// `first_index` finds the first occurrence.
pub proof fn lemma_first_index(s: Seq<char>, c: char)
    ensures
        match first_index(s, c) {
            Some(i) => 0 <= i < s.len() && s[i] == c && forall|j: int| 0 <= j < i ==> s[j] != c,
            None => forall|j: int| 0 <= j < s.len() ==> s[j] != c,
        },
    decreases s.len(),
{
    if s.len() > 0 && s[0] != c {
        lemma_first_index(s.drop_first(), c);
        assert forall|j: int| 1 <= j < s.len() implies s[j] == s.drop_first()[j - 1] by {}
    }
}

/// Lower-case hex digit character of `d` (0..=15).
pub open spec fn hex_digit_char(d: nat) -> char {
    if d < 10 { digit_char(d) }
    else if d == 10 { 'a' }
    else if d == 11 { 'b' }
    else if d == 12 { 'c' }
    else if d == 13 { 'd' }
    else if d == 14 { 'e' }
    else { 'f' }
}

/// Shortest lower-case hex rendering of `n` (no prefix, no leading zeros).
pub open spec fn hex(n: nat) -> Seq<char>
    decreases n,
{
    if n < 16 {
        seq![hex_digit_char(n)]
    } else {
        hex(n / 16).push(hex_digit_char(n % 16))
    }
}

/// The last `c` of `a + b` is `b`'s last one, or else `a`'s.
pub proof fn lemma_last_index_concat(a: Seq<char>, b: Seq<char>, c: char)
    ensures
        last_index(a + b, c) == match last_index(b, c) {
            Some(k) => Some(a.len() + k),
            None => last_index(a, c),
        },
    decreases b.len(),
{
    if b.len() == 0 {
        assert(a + b =~= a);
    } else {
        let ab = a + b;
        assert(ab.last() == b.last());
        if b.last() != c {
            assert(ab.drop_last() =~= a + b.drop_last());
            lemma_last_index_concat(a, b.drop_last(), c);
        }
    }
}

/// The text as `{:?}` prints it (quoted, with escapes); its exact escape table is std's.
pub uninterp spec fn debug_quoted(s: Seq<char>) -> Seq<char>;

/// Printable ASCII other than the double quote and the backslash: printed as is by `{:?}`.
pub open spec fn plain_ascii(s: Seq<char>) -> bool {
    forall|i: int| 0 <= i < s.len() ==> ' ' <= #[trigger] s[i] <= '~' && s[i] != '"' && s[i] != '\\'
}

/// `{:?}` of a text: a double-quoted, escaped rendering (std's `Debug for str`). For plain
/// printable ASCII (no quote, no backslash) it is the text between two double quotes; other
/// texts get std's escapes, which this contract leaves to the name `debug_quoted`.
#[verifier::external_body]
pub(crate) fn debug_quote(s: &str) -> (r: String)
    ensures
        r@ == debug_quoted(s@),
        plain_ascii(s@) ==> r@ == seq!['"'] + s@ + seq!['"'],
{
    format!("{:?}", s)
}

/// Append one character (std's `String::push`).
#[verifier::external_body]
pub(crate) fn push_char(s: &mut String, c: char)
    ensures
        final(s)@ == old(s)@.push(c),
{
    s.push(c);
}

/// The characters of `s`, in order.
pub fn chars_of(s: &str) -> (v: Vec<char>)
    ensures
        v@ == s@,
{
    let n = s.unicode_len();
    let mut v: Vec<char> = Vec::new();
    let mut i: usize = 0;
    while i < n
        invariant
            n == s@.len(),
            i <= n,
            v@ == s@.subrange(0, i as int),
        decreases n - i,
    {
        let c = s.get_char(i);
        v.push(c);
        i += 1;
    }
    v
}

/// Text made of the given characters.
pub fn string_of(cs: &Vec<char>) -> (s: String)
    ensures
        s@ == cs@,
{
    let mut s = String::new();
    let mut i: usize = 0;
    while i < cs.len()
        invariant
            i <= cs@.len(),
            s@ == cs@.subrange(0, i as int),
        decreases cs@.len() - i,
    {
        push_char(&mut s, cs[i]);
        i += 1;
    }
    s
}

/// Whether two texts are equal, character by character.
pub fn str_eq(a: &str, b: &str) -> (r: bool)
    ensures
        r == (a@ == b@),
{
    let va = chars_of(a);
    let vb = chars_of(b);
    chars_eq(&va, &vb)
}

/// Whether two character vectors are equal.
pub fn chars_eq(a: &Vec<char>, b: &Vec<char>) -> (r: bool)
    ensures
        r == (a@ == b@),
{
    if a.len() != b.len() {
        return false;
    }
    let mut i: usize = 0;
    while i < a.len()
        invariant
            a@.len() == b@.len(),
            i <= a@.len(),
            forall|j: int| 0 <= j < i ==> a@[j] == b@[j],
        decreases a@.len() - i,
    {
        if a[i] != b[i] {
            return false;
        }
        i += 1;
    }
    assert(a@ =~= b@);
    true
}

/// Append a text to a text.
pub fn push_str(s: &mut String, t: &str)
    ensures
        final(s)@ == old(s)@ + t@,
{
    s.append(t);
}

fn digit_of(d: u64) -> (c: char)
    requires
        d < 10,
    ensures
        c == digit_char(d as nat),
{
    if d == 0 { '0' }
    else if d == 1 { '1' }
    else if d == 2 { '2' }
    else if d == 3 { '3' }
    else if d == 4 { '4' }
    else if d == 5 { '5' }
    else if d == 6 { '6' }
    else if d == 7 { '7' }
    else if d == 8 { '8' }
    else { '9' }
}

/// Decimal rendering of `n`.
pub fn u64_decimal(n: u64) -> (s: String)
    ensures
        s@ == decimal(n as nat),
    decreases n,
{
    if n < 10 {
        let mut s = String::new();
        push_char(&mut s, digit_of(n));
        assert(s@ =~= decimal(n as nat));
        s
    } else {
        let mut s = u64_decimal(n / 10);
        push_char(&mut s, digit_of(n % 10));
        s
    }
}

/// Append the decimal rendering of `n`.
pub fn push_decimal(s: &mut String, n: u64)
    ensures
        final(s)@ == old(s)@ + decimal(n as nat),
{
    let d = u64_decimal(n);
    s.append(d.as_str());
}

/// `items` joined by `sep`.
pub fn join_strs(items: &Vec<&str>, sep: &str) -> (r: String)
    ensures
        r@ == join(items@.map_values(|t: &str| t@), sep@),
{
    let ghost views = items@.map_values(|t: &str| t@);
    let mut r = String::new();
    let mut i: usize = 0;
    while i < items.len()
        invariant
            i <= items@.len(),
            views == items@.map_values(|t: &str| t@),
            r@ == join(views.subrange(0, i as int), sep@),
        decreases items@.len() - i,
    {
        assert(views.subrange(0, i + 1).drop_last() =~= views.subrange(0, i as int));
        if i > 0 {
            r.append(sep);
        }
        r.append(items[i]);
        i += 1;
    }
    assert(views.subrange(0, items@.len() as int) =~= views);
    r
}


/// The position of the last `c` in `s`.
pub fn last_index_of(s: &Vec<char>, c: char) -> (r: Option<usize>)
    ensures
        match r {
            Some(i) => last_index(s@, c) == Some(i as int) && i < s@.len() && s@[i as int] == c,
            None => last_index(s@, c) is None,
        },
{
    proof { lemma_last_index(s@, c); }
    let mut i: usize = s.len();
    assert(s@.subrange(0, i as int) =~= s@);
    while i > 0
        invariant
            i <= s@.len(),
            last_index(s@, c) == last_index(s@.subrange(0, i as int), c),
        decreases i,
    {
        assert(s@.subrange(0, i as int).drop_last() =~= s@.subrange(0, i - 1));
        if s[i - 1] == c {
            return Some(i - 1);
        }
        i -= 1;
    }
    None
}

/// Whether `a` comes before `b` in [`text_lt`] order.
pub fn chars_lt(a: &Vec<char>, b: &Vec<char>) -> (r: bool)
    ensures
        r == text_lt(a@, b@),
{
    let mut i: usize = 0;
    assert(a@.subrange(0, a@.len() as int) =~= a@);
    assert(b@.subrange(0, b@.len() as int) =~= b@);
    while i < a.len() && i < b.len()
        invariant
            i <= a@.len(),
            i <= b@.len(),
            text_lt(a@, b@) == text_lt(a@.subrange(i as int, a@.len() as int), b@.subrange(i as int, b@.len() as int)),
        decreases a@.len() - i,
    {
        let ghost ra = a@.subrange(i as int, a@.len() as int);
        let ghost rb = b@.subrange(i as int, b@.len() as int);
        assert(ra[0] == a@[i as int] && rb[0] == b@[i as int]);
        if a[i] != b[i] {
            return a[i] < b[i];
        }
        assert(ra.drop_first() =~= a@.subrange(i + 1, a@.len() as int));
        assert(rb.drop_first() =~= b@.subrange(i + 1, b@.len() as int));
        i += 1;
    }
    i < b.len()
}


proof fn lemma_scan_step(s: Seq<char>, radix: nat, acc: nat)
    requires
        s.len() > 0,
    ensures
        digit_value(s[0], radix) is None ==> scan_digits(s, radix, acc) == Err::<nat, IntError>(IntError::InvalidDigit),
        forall|d: nat| digit_value(s[0], radix) == Some(d) && acc * radix + d > u64::MAX ==> scan_digits(s, radix, acc) == Err::<nat, IntError>(IntError::PosOverflow),
        forall|d: nat| digit_value(s[0], radix) == Some(d) && acc * radix + d <= u64::MAX ==> scan_digits(s, radix, acc) == scan_digits(s.drop_first(), radix, acc * radix + d),
{
}

fn digit_of_char(c: char, radix: u64) -> (r: Option<u64>)
    requires
        2 <= radix <= 36,
    ensures
        match r {
            Some(v) => digit_value(c, radix as nat) == Some(v as nat),
            None => digit_value(c, radix as nat) is None,
        },
{
    let v: u64 = if '0' <= c && c <= '9' {
        (c as u32 - '0' as u32) as u64
    } else if 'a' <= c && c <= 'z' {
        (c as u32 - 'a' as u32) as u64 + 10
    } else if 'A' <= c && c <= 'Z' {
        (c as u32 - 'A' as u32) as u64 + 10
    } else {
        radix
    };
    if v < radix { Some(v) } else { None }
}

/// std's `u64::from_str_radix` (see [`parse_uint_spec`]).
#[verifier::rlimit(40)]
pub fn parse_uint(s: &str, radix: u64) -> (r: Result<u64, IntError>)
    requires
        2 <= radix <= 36,
    ensures
        r == parse_uint_spec(s@, radix as nat),
{
    let cs = chars_of(s);
    if cs.len() == 0 {
        return Err(IntError::Empty);
    }
    let start: usize = if cs[0] == '+' { 1 } else { 0 };
    let ghost t = if s@[0] == '+' { s@.drop_first() } else { s@ };
    proof { assert(t =~= cs@.subrange(start as int, cs@.len() as int)); }
    if start == cs.len() {
        return Err(IntError::InvalidDigit);
    }
    proof {
        assert(t.len() > 0);
        assert(parse_uint_spec(s@, radix as nat) == match scan_digits(t, radix as nat, 0) {
            Ok(v) => Ok::<u64, IntError>(v as u64),
            Err(e) => Err(e),
        });
    }
    let mut acc: u64 = 0;
    let mut i: usize = start;
    while i < cs.len()
        invariant
            start <= i <= cs@.len(),
            2 <= radix <= 36,
            parse_uint_spec(s@, radix as nat) == match scan_digits(t, radix as nat, 0) {
                Ok(v) => Ok::<u64, IntError>(v as u64),
                Err(e) => Err(e),
            },
            scan_digits(t, radix as nat, 0) == scan_digits(cs@.subrange(i as int, cs@.len() as int), radix as nat, acc as nat),
        decreases cs@.len() - i,
    {
        let ghost rest = cs@.subrange(i as int, cs@.len() as int);
        assert(rest[0] == cs@[i as int]);
        assert(rest.drop_first() =~= cs@.subrange(i + 1, cs@.len() as int));
        match digit_of_char(cs[i], radix) {
            None => {
                proof {
                    lemma_scan_step(rest, radix as nat, acc as nat);
                }
                return Err(IntError::InvalidDigit);
            },
            Some(d) => {
                if acc > (u64::MAX - d) / radix {
                    proof {
                        assert(acc * radix + d > u64::MAX) by (nonlinear_arith)
                            requires
                                acc > (u64::MAX - d) as int / radix as int,
                                radix >= 2,
                                d <= u64::MAX,
                        ;
                        lemma_scan_step(rest, radix as nat, acc as nat);
                    }
                    return Err(IntError::PosOverflow);
                }
                proof {
                    assert(acc * radix + d <= u64::MAX) by (nonlinear_arith)
                        requires
                            acc <= (u64::MAX - d) as int / radix as int,
                            radix >= 2,
                            d < radix,
                    ;
                }
                proof { lemma_scan_step(rest, radix as nat, acc as nat); }
                acc = acc * radix + d;
            },
        }
        i += 1;
    }
    proof { assert(cs@.subrange(i as int, cs@.len() as int) =~= Seq::<char>::empty()); }
    Ok(acc)
}

/// The message std prints for a parse failure.
pub fn int_error_message(e: IntError) -> (m: &'static str)
    ensures
        m@ == int_error_text(e),
{
    match e {
        IntError::Empty => "cannot parse integer from empty string",
        IntError::InvalidDigit => "invalid digit found in string",
        IntError::PosOverflow => "number too large to fit in target type",
    }
}


/// The position of the first `c` in `s`.
pub fn first_index_of(s: &Vec<char>, c: char) -> (r: Option<usize>)
    ensures
        match r {
            Some(i) => first_index(s@, c) == Some(i as int) && i < s@.len() && s@[i as int] == c,
            None => first_index(s@, c) is None,
        },
{
    proof { lemma_first_index(s@, c); }
    let mut i: usize = 0;
    while i < s.len()
        invariant
            i <= s@.len(),
            forall|j: int| 0 <= j < i ==> s@[j] != c,
        decreases s@.len() - i,
    {
        if s[i] == c {
            proof {
                lemma_first_index(s@, c);
                if let Some(k) = first_index(s@, c) {
                    assert(k == i);
                }
            }
            return Some(i);
        }
        i += 1;
    }
    proof {
        if let Some(k) = first_index(s@, c) {
            assert(s@[k] == c);
        }
    }
    None
}

/// The characters of `s` from `from` to `to`, as a text.
pub fn text_between(s: &Vec<char>, from: usize, to: usize) -> (r: String)
    requires
        from <= to <= s@.len(),
    ensures
        r@ == s@.subrange(from as int, to as int),
{
    let mut v: Vec<char> = Vec::new();
    let mut k: usize = from;
    while k < to
        invariant
            from <= k <= to,
            to <= s@.len(),
            v@ == s@.subrange(from as int, k as int),
        decreases to - k,
    {
        v.push(s[k]);
        k += 1;
    }
    string_of(&v)
}


fn hex_digit_of(d: u64) -> (c: char)
    requires
        d < 16,
    ensures
        c == hex_digit_char(d as nat),
{
    if d < 10 { digit_of(d) }
    else if d == 10 { 'a' }
    else if d == 11 { 'b' }
    else if d == 12 { 'c' }
    else if d == 13 { 'd' }
    else if d == 14 { 'e' }
    else { 'f' }
}

/// Append the lower-case hex rendering of `n` (what `{:x}` prints).
pub fn push_hex(s: &mut String, n: u64)
    ensures
        final(s)@ == old(s)@ + hex(n as nat),
    decreases n,
{
    if n < 16 {
        push_char(s, hex_digit_of(n));
        assert(seq![hex_digit_char(n as nat)] =~= hex(n as nat));
    } else {
        push_hex(s, n / 16);
        push_char(s, hex_digit_of(n % 16));
    }
}

/// Whether `suffix` ends `s`.
pub fn chars_end_with(s: &Vec<char>, suffix: &Vec<char>) -> (r: bool)
    ensures
        r == ends_with(s@, suffix@),
{
    if suffix.len() > s.len() {
        return false;
    }
    let off = s.len() - suffix.len();
    let mut i: usize = 0;
    while i < suffix.len()
        invariant
            off + suffix@.len() == s@.len(),
            s@.len() <= usize::MAX,
            i <= suffix@.len(),
            forall|j: int| 0 <= j < i ==> s@[off + j] == suffix@[j],
        decreases suffix@.len() - i,
    {
        if s[off + i] != suffix[i] {
            assert(s@.subrange(off as int, s@.len() as int)[i as int] == s@[off + i]);
            return false;
        }
        i += 1;
    }
    assert(s@.subrange(s@.len() - suffix@.len(), s@.len() as int) =~= suffix@);
    true
}

/// Whether `needle` occurs in `hay` at position `i`.
fn chars_occur_at(hay: &Vec<char>, needle: &Vec<char>, i: usize) -> (r: bool)
    requires
        i + needle@.len() <= hay@.len(),
    ensures
        r == occurs_at(hay@, needle@, i as int),
{
    let hlen = hay.len();
    let mut k: usize = 0;
    while k < needle.len()
        invariant
            i + needle@.len() <= hay@.len(),
            hlen == hay@.len(),
            k <= needle@.len(),
            forall|j: int| 0 <= j < k ==> hay@[i + j] == needle@[j],
        decreases needle@.len() - k,
    {
        if hay[i + k] != needle[k] {
            assert(hay@.subrange(i as int, i + needle@.len())[k as int] == hay@[i + k]);
            return false;
        }
        k += 1;
    }
    assert(hay@.subrange(i as int, i + needle@.len()) =~= needle@);
    true
}

/// Whether `needle` occurs anywhere in `hay`.
pub fn chars_contain(hay: &Vec<char>, needle: &Vec<char>) -> (r: bool)
    ensures
        r == contains_seq(hay@, needle@),
{
    if needle.len() > hay.len() {
        return false;
    }
    if needle.len() == 0 {
        assert(hay@.subrange(0, 0) =~= needle@);
        assert(occurs_at(hay@, needle@, 0));
        return true;
    }
    let last = hay.len() - needle.len();
    let mut i: usize = 0;
    while i <= last
        invariant
            last + needle@.len() == hay@.len(),
            needle@.len() >= 1,
            hay@.len() <= usize::MAX,
            i <= last + 1,
            forall|j: int| 0 <= j < i ==> !occurs_at(hay@, needle@, j),
        decreases last + 1 - i,
    {
        if chars_occur_at(hay, needle, i) {
            return true;
        }
        i += 1;
    }
    assert forall|j: int| !occurs_at(hay@, needle@, j) by {
        if 0 <= j && j + needle@.len() <= hay@.len() {
            assert(j < i);
        }
    }
    false
}

/// ASCII lower-casing (other characters unchanged).
pub fn chars_ascii_lower(s: &Vec<char>) -> (r: Vec<char>)
    ensures
        r@ == ascii_lower_seq(s@),
{
    let mut r: Vec<char> = Vec::new();
    let mut i: usize = 0;
    while i < s.len()
        invariant
            i <= s@.len(),
            r@.len() == i,
            forall|j: int| 0 <= j < i ==> r@[j] == ascii_lower(s@[j]),
        decreases s@.len() - i,
    {
        let c = s[i];
        let l = if 'A' <= c && c <= 'Z' {
            char_plus_32(c)
        } else {
            c
        };
        r.push(l);
        i += 1;
    }
    assert(r@ =~= ascii_lower_seq(s@));
    r
}

fn char_plus_32(c: char) -> (l: char)
    requires
        'A' <= c <= 'Z',
    ensures
        l == ((c as u32) + 32) as char,
{
    if c == 'A' { 'a' } else if c == 'B' { 'b' } else if c == 'C' { 'c' } else if c == 'D' { 'd' }
    else if c == 'E' { 'e' } else if c == 'F' { 'f' } else if c == 'G' { 'g' } else if c == 'H' { 'h' }
    else if c == 'I' { 'i' } else if c == 'J' { 'j' } else if c == 'K' { 'k' } else if c == 'L' { 'l' }
    else if c == 'M' { 'm' } else if c == 'N' { 'n' } else if c == 'O' { 'o' } else if c == 'P' { 'p' }
    else if c == 'Q' { 'q' } else if c == 'R' { 'r' } else if c == 'S' { 's' } else if c == 'T' { 't' }
    else if c == 'U' { 'u' } else if c == 'V' { 'v' } else if c == 'W' { 'w' } else if c == 'X' { 'x' }
    else if c == 'Y' { 'y' } else { 'z' }
}

} // verus!
