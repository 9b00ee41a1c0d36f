//! Text as a sequence of characters: the string operations that naming,
//! parsing and rendering are built from.
use vstd::prelude::*;

verus! {

/// `String::push` appends one character to the end of the string.
pub assume_specification[ String::push ](s: &mut String, c: char)
    ensures
        final(s)@ == old(s)@.push(c),
;

/// `str` equality compares the two texts character by character.
pub assume_specification[ <str as PartialEq>::eq ](a: &str, b: &str) -> (r: bool)
    ensures
        r == (a@ == b@),
;

/// The characters of `s`.
pub fn chars_of(s: &str) -> (v: Vec<char>)
    ensures
        v@ == s@,
{
    let mut v: Vec<char> = Vec::new();
    for c in it: s.chars()
        invariant
            v@ == it.seq().take(it.index() as int),
            it.seq() == s@,
    {
        v.push(c);
    }
    v
}

/// Whether `a` and `b` are the same text.
pub fn same(a: &str, b: &str) -> (r: bool)
    ensures
        r == (a@ == b@),
{
    a.eq(b)
}

// ---- White space ----

/// Whether `c` is white space (the Unicode property `White_Space`).
pub open spec fn white_space(c: char) -> bool {
    let n = c as int;
    ||| 0x09 <= n <= 0x0d
    ||| n == 0x20
    ||| n == 0x85
    ||| n == 0xa0
    ||| n == 0x1680
    ||| 0x2000 <= n <= 0x200a
    ||| n == 0x2028
    ||| n == 0x2029
    ||| n == 0x202f
    ||| n == 0x205f
    ||| n == 0x3000
}

/// Whether `c` is white space.
pub fn is_white_space(c: char) -> (r: bool)
    ensures
        r == white_space(c),
{
    let n: u32 = c as u32;
    (0x09 <= n && n <= 0x0d) || n == 0x20 || n == 0x85 || n == 0xa0 || n == 0x1680 || (0x2000 <= n
        && n <= 0x200a) || n == 0x2028 || n == 0x2029 || n == 0x202f || n == 0x205f || n == 0x3000
}

/// `s` without leading and trailing white space.
pub open spec fn trimmed(s: Seq<char>) -> Seq<char>
    decreases s.len(),
{
    if s.len() > 0 && white_space(s[0]) {
        trimmed(s.drop_first())
    } else if s.len() > 0 && white_space(s.last()) {
        trimmed(s.drop_last())
    } else {
        s
    }
}

/// Whether `s` holds nothing but white space.
pub open spec fn blank(s: Seq<char>) -> bool {
    forall|i: int| 0 <= i < s.len() ==> white_space(#[trigger] s[i])
}

/// Text is blank exactly when trimming leaves nothing of it.
pub proof fn law_blank_is_trimmed_empty(s: Seq<char>)
    ensures
        blank(s) <==> trimmed(s).len() == 0,
    decreases s.len(),
{
    if s.len() > 0 && white_space(s[0]) {
        law_blank_is_trimmed_empty(s.drop_first());
        assert forall|i: int| blank(s.drop_first()) && 0 <= i < s.len() implies white_space(
            #[trigger] s[i],
        ) by {
            if i > 0 {
                assert(s[i] == s.drop_first()[i - 1]);
            }
        }
    } else if s.len() > 0 && white_space(s.last()) {
        assert(!blank(s));
        law_blank_is_trimmed_empty(s.drop_last());
        assert(!white_space(s.drop_last()[0]));
    }
}

/// `s` without leading and trailing white space.
pub fn trim(s: &str) -> (r: String)
    ensures
        r@ == trimmed(s@),
{
    let v = chars_of(s);
    let mut lo: usize = 0;
    let mut hi: usize = v.len();
    assert(v@.subrange(0, v@.len() as int) == v@);
    while lo < hi && is_white_space(v[lo])
        invariant
            lo <= hi == v.len(),
            trimmed(v@) == trimmed(v@.subrange(lo as int, hi as int)),
        decreases hi - lo,
    {
        assert(v@.subrange(lo as int, hi as int).drop_first() == v@.subrange(lo + 1, hi as int));
        lo = lo + 1;
    }
    while lo < hi && is_white_space(v[hi - 1])
        invariant
            lo <= hi <= v.len(),
            lo < hi ==> !white_space(v@[lo as int]),
            trimmed(v@) == trimmed(v@.subrange(lo as int, hi as int)),
        decreases hi - lo,
    {
        assert(v@.subrange(lo as int, hi as int).drop_last() == v@.subrange(lo as int, hi - 1));
        hi = hi - 1;
    }
    let mut r = String::new();
    for i in lo..hi
        invariant
            lo <= hi <= v.len(),
            r@ == v@.subrange(lo as int, i as int),
    {
        r.push(v[i]);
    }
    r
}

/// Whether `s` holds nothing but white space.
pub fn is_blank(s: &str) -> (r: bool)
    ensures
        r == blank(s@),
{
    let v = chars_of(s);
    for i in 0..v.len()
        invariant
            v@ == s@,
            forall|j: int| 0 <= j < i ==> white_space(#[trigger] v@[j]),
    {
        if !is_white_space(v[i]) {
            return false;
        }
    }
    true
}

// ---- Letters ----

/// `c` with an ASCII capital turned into the small letter.
pub open spec fn ascii_lower(c: char) -> char {
    if 'A' <= c && c <= 'Z' {
        (c as int + 32) as char
    } else {
        c
    }
}

/// `s` with its ASCII capitals turned into small letters.
pub open spec fn ascii_lowered(s: Seq<char>) -> Seq<char> {
    s.map_values(|c: char| ascii_lower(c))
}

/// `s` with its ASCII capitals turned into small letters.
pub fn to_ascii_lowercase(s: &str) -> (r: String)
    ensures
        r@ == ascii_lowered(s@),
{
    let v = chars_of(s);
    let mut r = String::new();
    for i in 0..v.len()
        invariant
            v@ == s@,
            r@ == ascii_lowered(s@).take(i as int),
    {
        let c = v[i];
        let low = if 'A' <= c && c <= 'Z' {
            (c as u8 + 32) as char
        } else {
            c
        };
        r.push(low);
    }
    r
}

/// Whether `c` is an ASCII letter.
pub open spec fn ascii_letter(c: char) -> bool {
    ('a' <= c && c <= 'z') || ('A' <= c && c <= 'Z')
}

/// Whether `c` is an ASCII digit.
pub open spec fn ascii_digit(c: char) -> bool {
    '0' <= c && c <= '9'
}

// ---- Parts of a text ----

/// Whether `part` stands in `s` with its first character at `at`.
pub open spec fn stands_at(s: Seq<char>, part: Seq<char>, at: int) -> bool {
    0 <= at && at + part.len() <= s.len() && s.subrange(at, at + part.len()) == part
}

/// Whether `part` stands somewhere in `s`.
pub open spec fn holds_part(s: Seq<char>, part: Seq<char>) -> bool {
    exists|at: int| stands_at(s, part, at)
}

fn part_at(v: &Vec<char>, p: &Vec<char>, at: usize) -> (r: bool)
    requires
        at + p.len() <= v.len(),
    ensures
        r == stands_at(v@, p@, at as int),
{
    for i in 0..p.len()
        invariant
            at + p.len() <= v.len(),
            forall|j: int| 0 <= j < i ==> v@[at + j] == #[trigger] p@[j],
    {
        if v[at + i] != p[i] {
            proof {
                assert(v@.subrange(at as int, at + p@.len())[i as int] != p@[i as int]);
            }
            return false;
        }
    }
    assert(v@.subrange(at as int, at + p@.len()) == p@);
    true
}

/// Whether `s` starts with `prefix`.
pub fn starts_with(s: &str, prefix: &str) -> (r: bool)
    ensures
        r == prefix@.is_prefix_of(s@),
{
    let v = chars_of(s);
    let p = chars_of(prefix);
    if p.len() > v.len() {
        return false;
    }
    part_at(&v, &p, 0)
}

/// Whether `part` stands somewhere in `s`.
pub fn contains(s: &str, part: &str) -> (r: bool)
    ensures
        r == holds_part(s@, part@),
{
    let v = chars_of(s);
    let p = chars_of(part);
    if p.len() > v.len() {
        return false;
    }
    let last: usize = v.len() - p.len();
    let mut at: usize = 0;
    while at <= last
        invariant
            v@ == s@,
            p@ == part@,
            last == v.len() - p.len(),
            at <= last + 1,
            last < usize::MAX || at <= last,
            forall|j: int| 0 <= j < at ==> !#[trigger] stands_at(s@, part@, j),
        decreases last + 1 - at,
    {
        if part_at(&v, &p, at) {
            return true;
        }
        if at == last {
            return false;
        }
        at = at + 1;
    }
    false
}

/// `s` with every leading occurrence of `prefix` removed; `prefix` is not empty.
pub open spec fn without_leading(s: Seq<char>, prefix: Seq<char>) -> Seq<char>
    decreases s.len(),
{
    if 0 < prefix.len() && prefix.is_prefix_of(s) {
        without_leading(s.subrange(prefix.len() as int, s.len() as int), prefix)
    } else {
        s
    }
}

/// `s` with every leading occurrence of `prefix` removed.
pub fn trim_start_matches(s: &str, prefix: &str) -> (r: String)
    requires
        prefix@.len() > 0,
    ensures
        r@ == without_leading(s@, prefix@),
{
    let v = chars_of(s);
    let p = chars_of(prefix);
    let mut at: usize = 0;
    assert(v@.subrange(0, v@.len() as int) == v@);
    while p.len() <= v.len() - at && part_at(&v, &p, at)
        invariant
            v@ == s@,
            p@ == prefix@,
            p.len() > 0,
            at <= v.len(),
            without_leading(s@, prefix@) == without_leading(
                v@.subrange(at as int, v@.len() as int),
                prefix@,
            ),
        decreases v.len() - at,
    {
        proof {
            let tail = v@.subrange(at as int, v@.len() as int);
            assert(tail.subrange(0, p@.len() as int) == p@);
            assert(tail.subrange(p@.len() as int, tail.len() as int) == v@.subrange(
                at + p@.len(),
                v@.len() as int,
            ));
        }
        at = at + p.len();
    }
    proof {
        let tail = v@.subrange(at as int, v@.len() as int);
        if prefix@.is_prefix_of(tail) {
            assert(v@.subrange(at as int, at + p@.len()) == tail.subrange(0, p@.len() as int));
        }
    }
    let mut r = String::new();
    for i in at..v.len()
        invariant
            at <= v.len(),
            r@ == v@.subrange(at as int, i as int),
    {
        r.push(v[i]);
    }
    r
}

/// `s` without the character `c`.
pub open spec fn without_char(s: Seq<char>, c: char) -> Seq<char> {
    s.filter(|x: char| x != c)
}

/// `s` without the character `c`.
pub fn remove_char(s: &str, c: char) -> (r: String)
    ensures
        r@ == without_char(s@, c),
{
    let v = chars_of(s);
    let mut r = String::new();
    proof {
        assert(s@.take(0).filter(|x: char| x != c) == Seq::<char>::empty());
    }
    for i in 0..v.len()
        invariant
            v@ == s@,
            r@ == without_char(s@.take(i as int), c),
    {
        reveal(Seq::filter);
        assert(s@.take(i + 1).drop_last() == s@.take(i as int));
        if v[i] != c {
            r.push(v[i]);
        }
    }
    assert(s@.take(s@.len() as int) == s@);
    r
}

/// The parts, with `sep` between each two neighbours.
pub open spec fn joined(parts: Seq<Seq<char>>, sep: Seq<char>) -> Seq<char>
    decreases parts.len(),
{
    if parts.len() == 0 {
        seq![]
    } else if parts.len() == 1 {
        parts[0]
    } else {
        joined(parts.drop_last(), sep) + sep + parts.last()
    }
}

/// The views of `parts`.
pub open spec fn views(parts: Seq<String>) -> Seq<Seq<char>> {
    parts.map_values(|p: String| p@)
}

/// The parts, with `sep` between each two neighbours.
pub fn join(parts: &Vec<String>, sep: &str) -> (r: String)
    ensures
        r@ == joined(views(parts@), sep@),
{
    let mut r = String::new();
    for i in 0..parts.len()
        invariant
            r@ == joined(views(parts@).take(i as int), sep@),
    {
        proof {
            let all = views(parts@);
            assert(all.take(i + 1).drop_last() == all.take(i as int));
            assert(all.take(i + 1).last() == parts@[i as int]@);
        }
        if i > 0 {
            r.append(sep);
        }
        r.append(parts[i].as_str());
    }
    assert(views(parts@).take(parts@.len() as int) == views(parts@));
    r
}

/// `before`, `middle` and `after` in a row.
pub fn around(before: &str, middle: &str, after: &str) -> (r: String)
    ensures
        r@ == before@ + middle@ + after@,
{
    let mut r = before.to_owned();
    r.append(middle);
    r.append(after);
    r
}

// ---- Numbers ----

/// The digit that stands for `d`, below ten.
pub open spec fn digit(d: nat) -> char {
    (48 + d) as char
}

/// `n` in decimal, without leading zeros.
pub open spec fn decimal(n: nat) -> Seq<char>
    decreases n,
{
    if n < 10 {
        seq![digit(n)]
    } else {
        decimal(n / 10).push(digit(n % 10))
    }
}

/// `n` in decimal, a minus sign in front where it is negative.
pub open spec fn signed_decimal(n: int) -> Seq<char> {
    if n < 0 {
        seq!['-'] + decimal((-n) as nat)
    } else {
        decimal(n as nat)
    }
}

/// `n` in decimal.
pub fn decimal_of(n: u64) -> (r: String)
    ensures
        r@ == decimal(n as nat),
    decreases n,
{
    let mut r = if n < 10 {
        String::new()
    } else {
        decimal_of(n / 10)
    };
    let d: u8 = (n % 10) as u8;
    r.push((48 + d) as char);
    r
}

/// `n` in decimal, a minus sign in front where it is negative.
pub fn signed_decimal_of(n: i32) -> (r: String)
    ensures
        r@ == signed_decimal(n as int),
{
    if n < 0 {
        let mut r = String::new();
        r.push('-');
        let m: u64 = (-(n as i64)) as u64;
        let d = decimal_of(m);
        r.append(d.as_str());
        assert(r@ == seq!['-'] + decimal((-(n as int)) as nat));
        r
    } else {
        decimal_of(n as u64)
    }
}

/// The number that a run of decimal digits writes.
pub open spec fn digits_value(s: Seq<char>) -> nat
    decreases s.len(),
{
    if s.len() == 0 {
        0
    } else {
        digits_value(s.drop_last()) * 10 + ((s.last() as int - 48) as nat)
    }
}

/// Whether `s` is a run of one or more decimal digits.
pub open spec fn all_digits(s: Seq<char>) -> bool {
    s.len() > 0 && forall|i: int| 0 <= i < s.len() ==> ascii_digit(#[trigger] s[i])
}

/// The number that `s` writes in decimal, after at most one plus sign; `None`
/// where `s` is no such text or the number exceeds `max`.
pub open spec fn unsigned_of(s: Seq<char>, max: nat) -> Option<nat> {
    let body = if s.len() > 0 && s[0] == '+' {
        s.drop_first()
    } else {
        s
    };
    if all_digits(body) && digits_value(body) <= max {
        Some(digits_value(body))
    } else {
        None
    }
}

/// The number that `s` writes in decimal, after at most one sign; `None` where
/// `s` is no such text or the number is outside the range of `i64`.
pub open spec fn signed_of(s: Seq<char>) -> Option<int> {
    if s.len() > 0 && s[0] == '-' {
        let body = s.drop_first();
        if all_digits(body) && digits_value(body) <= 0x8000_0000_0000_0000 {
            Some(-digits_value(body))
        } else {
            None
        }
    } else {
        match unsigned_of(s, i64::MAX as nat) {
            Some(n) => Some(n as int),
            None => None,
        }
    }
}

/// Reading back the decimal form of a number gives the number.
pub proof fn law_decimal_reads_back(n: nat)
    ensures
        all_digits(decimal(n)),
        digits_value(decimal(n)) == n,
        forall|max: nat| n <= max ==> #[trigger] unsigned_of(decimal(n), max) == Some(n),
    decreases n,
{
    reveal_with_fuel(digits_value, 2);
    if n >= 10 {
        law_decimal_reads_back(n / 10);
        assert(decimal(n).drop_last() == decimal(n / 10));
    } else {
        assert(decimal(n).drop_last() == Seq::<char>::empty());
    }
    assert(ascii_digit(decimal(n)[0]));
}

/// Two numbers with the same decimal form are equal.
pub proof fn law_decimal_injective(m: nat, n: nat)
    ensures
        decimal(m) == decimal(n) ==> m == n,
{
    law_decimal_reads_back(m);
    law_decimal_reads_back(n);
}

fn digits_from(v: &Vec<char>, from: usize, max: u64) -> (r: Option<u64>)
    requires
        from <= v.len(),
    ensures
        match r {
            Some(n) => all_digits(v@.subrange(from as int, v@.len() as int)) && n == digits_value(
                v@.subrange(from as int, v@.len() as int),
            ) && n <= max,
            None => !(all_digits(v@.subrange(from as int, v@.len() as int)) && digits_value(
                v@.subrange(from as int, v@.len() as int),
            ) <= max),
        },
{
    let ghost body = v@.subrange(from as int, v@.len() as int);
    if from == v.len() {
        return None;
    }
    let mut acc: u64 = 0;
    let mut over: bool = false;
    for i in from..v.len()
        invariant
            from <= i <= v.len(),
            body == v@.subrange(from as int, v@.len() as int),
            forall|j: int| 0 <= j < i - from ==> ascii_digit(#[trigger] body[j]),
            over ==> digits_value(body.take(i - from)) > max,
            !over ==> acc == digits_value(body.take(i - from)) && acc <= max,
    {
        let c = v[i];
        assert(body[i - from] == c);
        if !('0' <= c && c <= '9') {
            return None;
        }
        assert(body.take(i - from + 1).drop_last() == body.take(i - from));
        let d: u64 = c as u64 - 48;
        if !over {
            let wide: u128 = acc as u128 * 10 + d as u128;
            if wide > max as u128 {
                over = true;
            } else {
                acc = wide as u64;
            }
        }
    }
    assert(body.take(v@.len() - from) == body);
    if over {
        None
    } else {
        Some(acc)
    }
}

/// Reads a decimal number no larger than `max`, after at most one plus sign.
pub fn parse_unsigned(s: &str, max: u64) -> (r: Option<u64>)
    ensures
        match r {
            Some(n) => unsigned_of(s@, max as nat) == Some(n as nat),
            None => unsigned_of(s@, max as nat) is None,
        },
{
    let v = chars_of(s);
    let from: usize = if v.len() > 0 && v[0] == '+' {
        1
    } else {
        0
    };
    assert(v@.subrange(0, v@.len() as int) == v@);
    digits_from(&v, from, max)
}

/// Reads a decimal number in the range of `i64`, after at most one sign.
pub fn parse_signed(s: &str) -> (r: Option<i64>)
    ensures
        match r {
            Some(n) => signed_of(s@) == Some(n as int),
            None => signed_of(s@) is None,
        },
{
    let v = chars_of(s);
    if v.len() > 0 && v[0] == '-' {
        match digits_from(&v, 1, 0x8000_0000_0000_0000) {
            Some(n) => {
                let wide: i128 = 0 - n as i128;
                Some(wide as i64)
            },
            None => None,
        }
    } else {
        match parse_unsigned(s, 0x7fff_ffff_ffff_ffff) {
            Some(n) => Some(n as i64),
            None => None,
        }
    }
}

// ---- Padding ----

/// `n` blanks.
pub open spec fn blanks(n: int) -> Seq<char> {
    Seq::new(
        if n > 0 {
            n as nat
        } else {
            0
        },
        |i: int| ' ',
    )
}

/// `s` with blanks behind it, up to `width` characters.
pub open spec fn padded_right(s: Seq<char>, width: int) -> Seq<char> {
    s + blanks(width - s.len())
}

/// `s` with blanks before it, up to `width` characters.
pub open spec fn padded_left(s: Seq<char>, width: int) -> Seq<char> {
    blanks(width - s.len()) + s
}

fn make_blanks(width: usize, used: usize) -> (r: String)
    ensures
        r@ == blanks(width - used),
{
    let mut r = String::new();
    let mut i: usize = used;
    assert(r@ =~= blanks(0));
    while i < width
        invariant
            used <= i,
            i <= width || i == used,
            r@ == blanks(i - used),
        decreases width - i,
    {
        let ghost was = r@;
        r.push(' ');
        assert(r@ =~= blanks(i + 1 - used));
        i = i + 1;
    }
    assert(used > width ==> r@ =~= blanks(width - used));
    r
}

/// `s` with blanks behind it, up to `width` characters.
pub fn pad_right(s: &str, width: usize) -> (r: String)
    ensures
        r@ == padded_right(s@, width as int),
{
    let n: usize = chars_of(s).len();
    s.to_owned().concat(make_blanks(width, n).as_str())
}

/// `s` with blanks before it, up to `width` characters.
pub fn pad_left(s: &str, width: usize) -> (r: String)
    ensures
        r@ == padded_left(s@, width as int),
{
    let n: usize = chars_of(s).len();
    make_blanks(width, n).concat(s)
}

/// Whether `name` is one of `names`.
pub fn is_one_of(names: &Vec<String>, name: &str) -> (r: bool)
    ensures
        r == views(names@).contains(name@),
{
    for i in 0..names.len()
        invariant
            forall|k: int| 0 <= k < i ==> #[trigger] names@[k]@ != name@,
    {
        if same(names[i].as_str(), name) {
            assert(views(names@)[i as int] == name@);
            return true;
        }
    }
    assert forall|k: int| 0 <= k < names@.len() implies #[trigger] views(names@)[k] != name@ by {
        assert(names@[k]@ != name@);
    }
    false
}

/// The decimal form of a number begins with a digit.
pub proof fn law_no_sign(n: nat)
    ensures
        decimal(n).len() > 0,
        '0' <= decimal(n)[0] && decimal(n)[0] <= '9',
{
    law_decimal_reads_back(n);
    assert(ascii_digit(decimal(n)[0]));
}

/// Reading back the decimal form of a signed number gives the number.
pub proof fn law_signed_reads_back(n: i64)
    ensures
        signed_of(signed_decimal(n as int)) == Some(n as int),
{
    let m: nat = if n < 0 {
        (-n) as nat
    } else {
        n as nat
    };
    law_decimal_reads_back(m);
    law_no_sign(m);
    if n < 0 {
        assert((seq!['-'] + decimal(m)).drop_first() =~= decimal(m));
    }
}

/// Trimming takes off all white space at either end and nothing else: what is left
/// stands in the text between white space, and neither begins nor ends with any.
pub proof fn law_trimmed(s: Seq<char>) -> (at: int)
    ensures
        0 <= at,
        at + trimmed(s).len() <= s.len(),
        trimmed(s) == s.subrange(at, at + trimmed(s).len()),
        forall|i: int| 0 <= i < at ==> white_space(#[trigger] s[i]),
        forall|i: int| at + trimmed(s).len() <= i < s.len() ==> white_space(#[trigger] s[i]),
        trimmed(s).len() > 0 ==> !white_space(trimmed(s)[0]) && !white_space(trimmed(s).last()),
    decreases s.len(),
{
    if s.len() > 0 && white_space(s[0]) {
        let t = s.drop_first();
        let at = law_trimmed(t);
        assert(trimmed(s) =~= s.subrange(at + 1, at + 1 + trimmed(s).len()));
        assert forall|i: int| 0 <= i < at + 1 implies white_space(#[trigger] s[i]) by {
            if i > 0 {
                assert(t[i - 1] == s[i]);
            }
        }
        assert forall|i: int| at + 1 + trimmed(s).len() <= i < s.len() implies white_space(
            #[trigger] s[i],
        ) by {
            assert(t[i - 1] == s[i]);
        }
        at + 1
    } else if s.len() > 0 && white_space(s.last()) {
        let t = s.drop_last();
        let at = law_trimmed(t);
        assert(trimmed(s) =~= s.subrange(at, at + trimmed(s).len()));
        assert forall|i: int| 0 <= i < at implies white_space(#[trigger] s[i]) by {
            assert(t[i] == s[i]);
        }
        assert forall|i: int| at + trimmed(s).len() <= i < s.len() implies white_space(
            #[trigger] s[i],
        ) by {
            if i < t.len() {
                assert(t[i] == s[i]);
            }
        }
        at
    } else {
        assert(s =~= s.subrange(0, s.len() as int));
        0
    }
}

/// What is white space, among ASCII characters: blank, tab, line feed and the three
/// after it; no letter, no digit and no sign is.
pub proof fn law_ascii_white_space(c: char)
    requires
        c as u32 <= 127,
    ensures
        white_space(c) <==> c == ' ' || c == '\t' || c == '\n' || c == '\r' || c as u32 == 11
            || c as u32 == 12,
{
}

/// Joined parts read one after another with the separator between each two: joining
/// one more part adds the separator and the part.
pub proof fn law_joined(parts: Seq<Seq<char>>, part: Seq<char>, sep: Seq<char>)
    ensures
        joined(Seq::<Seq<char>>::empty(), sep).len() == 0,
        joined(parts.push(part), sep) == if parts.len() == 0 {
            part
        } else {
            joined(parts, sep) + sep + part
        },
{
    assert(parts.push(part).drop_last() =~= parts);
}

/// A padded text is the text with blanks on the other side, and no shorter than its
/// column; one that fills its column is left as it is.
pub proof fn law_padded(s: Seq<char>, width: int)
    ensures
        s.is_prefix_of(padded_right(s, width)),
        s.is_suffix_of(padded_left(s, width)),
        padded_right(s, width).len() == if s.len() < width {
            width
        } else {
            s.len() as int
        },
        padded_left(s, width).len() == padded_right(s, width).len(),
        forall|i: int|
            s.len() <= i < padded_right(s, width).len() ==> #[trigger] padded_right(s, width)[i]
                == ' ',
        forall|i: int|
            0 <= i < padded_left(s, width).len() - s.len() ==> #[trigger] padded_left(s, width)[i]
                == ' ',
{
    let r = padded_right(s, width);
    let l = padded_left(s, width);
    assert(s =~= r.subrange(0, s.len() as int));
    assert(s =~= l.subrange(l.len() - s.len(), l.len() as int));
}

/// A text without a plus sign in front reads as an unsigned number exactly where it is
/// one or more characters from `0` to `9` and the number they write in base ten fits;
/// it reads as that number, and one plus sign in front changes nothing.
pub proof fn law_unsigned_of(s: Seq<char>, max: nat)
    requires
        s.len() == 0 || s[0] != '+',
    ensures
        unsigned_of(seq!['+'] + s, max) == unsigned_of(s, max),
        s.len() == 0 ==> unsigned_of(s, max) is None,
        (exists|i: int| 0 <= i < s.len() && !('0' <= (#[trigger] s[i]) && s[i] <= '9'))
            ==> unsigned_of(s, max) is None,
        s.len() > 0 && (forall|i: int|
            0 <= i < s.len() ==> '0' <= (#[trigger] s[i]) && s[i] <= '9') ==> unsigned_of(s, max)
            == {
            let value = s.fold_left(0int, |n: int, c: char| 10 * n + (c as int - '0' as int));
            if value <= max {
                Some(value as nat)
            } else {
                None
            }
        },
{
    assert((seq!['+'] + s).drop_first() =~= s);
    if forall|i: int| 0 <= i < s.len() ==> '0' <= (#[trigger] s[i]) && s[i] <= '9' {
        assert forall|i: int| 0 <= i < s.len() implies ascii_digit(#[trigger] s[i]) by {
            assert('0' <= s[i] && s[i] <= '9');
        }
        lemma_digits_value(s);
    } else {
        let i = choose|i: int| 0 <= i < s.len() && !('0' <= (#[trigger] s[i]) && s[i] <= '9');
        assert(!ascii_digit(s[i]));
    }
}

proof fn lemma_digits_value(s: Seq<char>)
    requires
        forall|i: int| 0 <= i < s.len() ==> ascii_digit(#[trigger] s[i]),
    ensures
        digits_value(s) == s.fold_left(0int, |n: int, c: char| 10 * n + (c as int - '0' as int)),
    decreases s.len(),
{
    if s.len() > 0 {
        assert(ascii_digit(s[s.len() - 1]));
        assert forall|i: int| 0 <= i < s.len() - 1 implies ascii_digit(
            #[trigger] s.drop_last()[i],
        ) by {
            assert(ascii_digit(s[i]));
        }
        lemma_digits_value(s.drop_last());
    }
}

/// A text reads as a signed number as it does without its minus sign, negated; the
/// least of the range has no positive counterpart.
pub proof fn law_signed_of(s: Seq<char>)
    ensures
        s.len() == 0 || s[0] != '-' ==> match unsigned_of(s, 0x7fff_ffff_ffff_ffff) {
            Some(n) => signed_of(s) == Some(n as int),
            None => signed_of(s) is None,
        },
        s.len() > 0 && s[0] == '-' && (s.len() < 2 || s[1] != '+') ==> match unsigned_of(
            s.subrange(1, s.len() as int),
            0x8000_0000_0000_0000,
        ) {
            Some(n) => signed_of(s) == Some(-n),
            None => signed_of(s) is None,
        },
        s.len() > 1 && s[0] == '-' && s[1] == '+' ==> signed_of(s) is None,
{
    if s.len() > 0 {
        assert(s.drop_first() =~= s.subrange(1, s.len() as int));
        if s.len() > 1 && s[1] == '+' {
            assert(!ascii_digit(s.drop_first()[0]));
        }
    }
}

/// A lowered text has the same characters, but the letters from `A` to `Z` are the
/// small ones, which stand 32 places further on.
pub proof fn law_ascii_lowered(s: Seq<char>, i: int)
    requires
        0 <= i < s.len(),
    ensures
        ascii_lowered(s).len() == s.len(),
        ascii_lowered(s)[i] as int == s[i] as int + if 'A' <= s[i] && s[i] <= 'Z' {
            32int
        } else {
            0
        },
{
}

/// What is left after a prefix is taken off, as often as it stands there, does not
/// begin with it, and the prefix in front of a text makes no difference.
pub proof fn law_without_leading(s: Seq<char>, prefix: Seq<char>)
    requires
        prefix.len() > 0,
    ensures
        !prefix.is_prefix_of(without_leading(s, prefix)),
        without_leading(prefix + s, prefix) == without_leading(s, prefix),
        !prefix.is_prefix_of(s) ==> without_leading(s, prefix) == s,
    decreases s.len(),
{
    assert((prefix + s).subrange(prefix.len() as int, (prefix + s).len() as int) =~= s);
    assert((prefix + s).subrange(0, prefix.len() as int) =~= prefix);
    if prefix.is_prefix_of(s) {
        law_without_leading(s.subrange(prefix.len() as int, s.len() as int), prefix);
    }
}

} // verus!
