//! Files under sysfs as values: what was read, what is to be written, and how
//! the numbers in them read.
use crate::text;
use crate::wide::Wide;
use vstd::prelude::*;

verus! {

/// What reading a file that exists gave.
#[derive(Debug, Clone)]
pub enum Contents {
    Text(String),
    /// The read failed, for the reason given.
    Unreadable(String),
}

/// A file that exists, with what reading it gave.
#[derive(Debug, Clone)]
pub struct SysfsFile {
    pub path: String,
    pub contents: Contents,
}

/// One step of listing a directory.
#[derive(Debug, Clone)]
pub enum DirEntry {
    Path(String),
    /// The step failed, for the reason given.
    Failed(String),
}

/// What listing the hwmon directory gave.
#[derive(Debug, Clone)]
pub enum Listing {
    /// There is no such directory.
    Missing,
    /// The directory could not be opened, for the reason given.
    Failed(String),
    Entries(Vec<DirEntry>),
}

/// What was seen of sysfs: the hwmon directory and the files that exist. A file
/// that is not among `files` does not exist.
#[derive(Debug, Clone)]
pub struct Sysfs {
    pub listing: Listing,
    pub files: Vec<SysfsFile>,
}

/// A value to be written to a file.
#[derive(Debug, Clone)]
pub struct SysfsWrite {
    pub path: String,
    pub value: String,
}

/// Where the hwmon chips are listed.
pub open spec fn hwmon_base() -> Seq<char> {
    "/sys/class/hwmon"@
}

// ---- Paths ----

/// `name` below the directory `base`.
pub open spec fn below(base: Seq<char>, name: Seq<char>) -> Seq<char> {
    if base.len() == 0 {
        name
    } else if base.last() == '/' {
        base + name
    } else {
        base + "/"@ + name
    }
}

/// `name` below the directory `base`.
pub fn join(base: &str, name: &str) -> (r: String)
    ensures
        r@ == below(base@, name@),
{
    let chars = text::chars_of(base);
    let n: usize = chars.len();
    if n == 0 {
        return name.to_owned();
    }
    if chars[n - 1] == '/' {
        return base.to_owned().concat(name);
    }
    text::around(base, "/", name)
}

/// Where a character stands in the order of paths: separators come first, so
/// that paths are ordered component by component.
pub open spec fn path_rank(c: char) -> int {
    if c == '/' {
        -1
    } else {
        c as int
    }
}

/// Whether path `a` stands before or with path `b`, from position `i` on.
pub open spec fn path_le_from(a: Seq<char>, b: Seq<char>, i: int) -> bool
    decreases a.len() - i,
{
    if i >= a.len() {
        true
    } else if i >= b.len() {
        false
    } else if a[i] == b[i] {
        path_le_from(a, b, i + 1)
    } else {
        path_rank(a[i]) < path_rank(b[i])
    }
}

/// Whether path `a` stands before or with path `b`.
pub open spec fn path_le(a: Seq<char>, b: Seq<char>) -> bool {
    path_le_from(a, b, 0)
}

fn rank(c: char) -> (r: i64)
    ensures
        r == path_rank(c),
{
    if c == '/' {
        -1
    } else {
        c as u32 as i64
    }
}

/// Whether path `a` stands before or with path `b`.
pub fn path_at_most(a: &str, b: &str) -> (r: bool)
    ensures
        r == path_le(a@, b@),
{
    let x = text::chars_of(a);
    let y = text::chars_of(b);
    for i in 0..x.len()
        invariant
            x@ == a@,
            y@ == b@,
            path_le(a@, b@) == path_le_from(a@, b@, i as int),
    {
        if i >= y.len() {
            return false;
        }
        if x[i] != y[i] {
            return rank(x[i]) < rank(y[i]);
        }
    }
    true
}

proof fn lemma_rank_injective(x: char, y: char)
    ensures
        x != y ==> path_rank(x) != path_rank(y),
{
}

proof fn lemma_path_total(a: Seq<char>, b: Seq<char>, i: int)
    requires
        0 <= i,
    ensures
        path_le_from(a, b, i) || path_le_from(b, a, i),
    decreases a.len() - i,
{
    if i < a.len() && i < b.len() {
        if a[i] == b[i] {
            lemma_path_total(a, b, i + 1);
        } else {
            lemma_rank_injective(a[i], b[i]);
        }
    }
}

proof fn lemma_path_transitive(a: Seq<char>, b: Seq<char>, c: Seq<char>, i: int)
    requires
        0 <= i,
        path_le_from(a, b, i),
        path_le_from(b, c, i),
    ensures
        path_le_from(a, c, i),
    decreases a.len() - i,
{
    if i < a.len() && i < b.len() && i < c.len() && a[i] == b[i] && b[i] == c[i] {
        lemma_path_transitive(a, b, c, i + 1);
    }
}

/// How paths are put in order.
#[derive(Debug, Clone, Copy, PartialEq, Eq, Structural)]
pub enum PathOrder {
    /// By their text, component by component.
    Text,
    /// By the number that they end in, then by their text; paths that end in no
    /// number come last.
    Number,
}

/// Whether the path ends in a number.
pub open spec fn is_numbered(path: Seq<char>) -> bool {
    path.len() > 0 && text::ascii_digit(path.last())
}

/// The number that the path ends in; 0 where it ends in none.
pub open spec fn end_number(path: Seq<char>) -> int
    decreases path.len(),
{
    if is_numbered(path) {
        10 * end_number(path.drop_last()) + (path.last() as int - '0' as int)
    } else {
        0
    }
}

impl PathOrder {
    /// Whether path `a` stands before or with path `b`.
    pub open spec fn allows(self, a: Seq<char>, b: Seq<char>) -> bool {
        match self {
            PathOrder::Text => path_le(a, b),
            PathOrder::Number => if is_numbered(a) && is_numbered(b) {
                end_number(a) < end_number(b) || (end_number(a) == end_number(b) && path_le(a, b))
            } else {
                is_numbered(a) || (!is_numbered(b) && path_le(a, b))
            },
        }
    }
}

/// Whether the path ends in a number, and that number.
fn number_of(path: &str) -> (r: (bool, Wide))
    ensures
        r.0 == is_numbered(path@),
        r.1.value() == end_number(path@),
{
    let chars = text::chars_of(path);
    let mut numbered = false;
    let mut number = Wide::zero();
    for i in 0..chars.len()
        invariant
            chars@ == path@,
            numbered == is_numbered(path@.take(i as int)),
            number.value() == end_number(path@.take(i as int)),
    {
        let c = chars[i];
        assert(path@.take(i + 1).drop_last() =~= path@.take(i as int));
        numbered = '0' <= c && c <= '9';
        number = if numbered {
            number.times(10).plus(&Wide::of(c as u128 - 48))
        } else {
            Wide::zero()
        };
    }
    assert(path@.take(chars@.len() as int) =~= path@);
    (numbered, number)
}

/// Whether path `a` stands before or with path `b` in the order.
pub fn precedes(order: PathOrder, a: &str, b: &str) -> (r: bool)
    ensures
        r == order.allows(a@, b@),
{
    match order {
        PathOrder::Text => path_at_most(a, b),
        PathOrder::Number => {
            let (a_numbered, x) = number_of(a);
            let (b_numbered, y) = number_of(b);
            if a_numbered && b_numbered {
                y.exceeds(&x) || (!x.exceeds(&y) && path_at_most(a, b))
            } else {
                a_numbered || (!b_numbered && path_at_most(a, b))
            }
        },
    }
}

proof fn lemma_order_total(order: PathOrder, a: Seq<char>, b: Seq<char>)
    ensures
        order.allows(a, b) || order.allows(b, a),
{
    lemma_path_total(a, b, 0);
}

proof fn lemma_order_transitive(order: PathOrder, a: Seq<char>, b: Seq<char>, c: Seq<char>)
    requires
        order.allows(a, b),
        order.allows(b, c),
    ensures
        order.allows(a, c),
{
    if path_le(a, b) && path_le(b, c) {
        lemma_path_transitive(a, b, c, 0);
    }
}

/// `p` put into the ordered paths `s`, behind every path that it does not
/// precede.
pub open spec fn put_path(order: PathOrder, s: Seq<Seq<char>>, p: Seq<char>) -> Seq<Seq<char>>
    decreases s.len(),
{
    if s.len() == 0 || order.allows(s.last(), p) {
        s.push(p)
    } else {
        put_path(order, s.drop_last(), p).push(s.last())
    }
}

/// The paths `s` in order.
pub open spec fn ordered(order: PathOrder, s: Seq<Seq<char>>) -> Seq<Seq<char>>
    decreases s.len(),
{
    if s.len() == 0 {
        s
    } else {
        put_path(order, ordered(order, s.drop_last()), s.last())
    }
}

/// Whether every path stands before or with those behind it.
pub open spec fn in_order(order: PathOrder, s: Seq<Seq<char>>) -> bool {
    forall|i: int, j: int| 0 <= i < j < s.len() ==> order.allows(#[trigger] s[i], #[trigger] s[j])
}

proof fn lemma_put_path(order: PathOrder, s: Seq<Seq<char>>, p: Seq<char>)
    requires
        in_order(order, s),
    ensures
        in_order(order, put_path(order, s, p)),
        put_path(order, s, p).to_multiset() == s.to_multiset().insert(p),
        put_path(order, s, p).len() == s.len() + 1,
        forall|i: int|
            0 <= i < put_path(order, s, p).len() ==> #[trigger] put_path(order, s, p)[i] == p || s.contains(
                put_path(order, s, p)[i],
            ),
    decreases s.len(),
{
    broadcast use vstd::seq_lib::group_to_multiset_ensures;

    if s.len() == 0 || order.allows(s.last(), p) {
        let r = s.push(p);
        assert forall|i: int, j: int| 0 <= i < j < r.len() implies order.allows(
            #[trigger] r[i],
            #[trigger] r[j],
        ) by {
            if j == s.len() && i < s.len() - 1 {
                assert(order.allows(s[i], s.last()));
                lemma_order_transitive(order, s[i], s.last(), p);
            }
        }
        assert forall|i: int| 0 <= i < r.len() implies #[trigger] r[i] == p || s.contains(r[i]) by {
            if i < s.len() {
                assert(s[i] == r[i]);
            }
        }
    } else {
        let t = s.drop_last();
        lemma_put_path(order, t, p);
        lemma_order_total(order, s.last(), p);
        let r = put_path(order, t, p).push(s.last());
        assert forall|i: int, j: int| 0 <= i < j < r.len() implies order.allows(
            #[trigger] r[i],
            #[trigger] r[j],
        ) by {
            if j == r.len() - 1 {
                assert(put_path(order, t, p)[i] == r[i]);
                if r[i] != p {
                    assert(t.contains(r[i]));
                    let k = choose|k: int| 0 <= k < t.len() && t[k] == r[i];
                    assert(order.allows(s[k], s.last()));
                }
            }
        }
        assert forall|i: int| 0 <= i < r.len() implies #[trigger] r[i] == p || s.contains(r[i]) by {
            if i < r.len() - 1 {
                assert(put_path(order, t, p)[i] == r[i]);
                if r[i] != p {
                    assert(t.contains(r[i]));
                    let k = choose|k: int| 0 <= k < t.len() && t[k] == r[i];
                    assert(s[k] == r[i]);
                }
            } else {
                assert(s[s.len() - 1] == r[i]);
            }
        }
        assert(s =~= t.push(s.last()));
        assert(t.to_multiset().insert(p).insert(s.last()) =~= s.to_multiset().insert(p));
    }
}

/// Putting paths in order loses none, adds none and puts none before one that
/// precedes it.
pub proof fn law_ordered(order: PathOrder, s: Seq<Seq<char>>)
    ensures
        in_order(order, ordered(order, s)),
        ordered(order, s).to_multiset() == s.to_multiset(),
        ordered(order, s).len() == s.len(),
    decreases s.len(),
{
    broadcast use vstd::seq_lib::group_to_multiset_ensures;

    if s.len() > 0 {
        law_ordered(order, s.drop_last());
        lemma_put_path(order, ordered(order, s.drop_last()), s.last());
        assert(s =~= s.drop_last().push(s.last()));
    }
}

/// Of two numbered paths, the one that ends in the smaller number comes first.
pub proof fn law_ordered_by_number(s: Seq<Seq<char>>, i: int, j: int)
    requires
        0 <= i < j < s.len(),
    ensures
        ({
            let t = ordered(PathOrder::Number, s);
            &&& is_numbered(t[i]) && is_numbered(t[j]) ==> end_number(t[i]) <= end_number(t[j])
            &&& is_numbered(t[j]) ==> is_numbered(t[i])
        }),
{
    law_ordered(PathOrder::Number, s);
    let t = ordered(PathOrder::Number, s);
    assert(PathOrder::Number.allows(t[i], t[j]));
}

/// Puts paths in order.
pub fn sort_paths(order: PathOrder, paths: &Vec<String>) -> (r: Vec<String>)
    ensures
        text::views(r@) == ordered(order, text::views(paths@)),
{
    let mut done: Vec<String> = Vec::new();
    assert(text::views(done@) =~= ordered(order, text::views(paths@.take(0))));
    for i in 0..paths.len()
        invariant
            text::views(done@) == ordered(order, text::views(paths@.take(i as int))),
    {
        let p = paths[i].clone();
        let ghost before = text::views(done@);
        let mut at: usize = done.len();
        let ghost mut tail: Seq<Seq<char>> = Seq::empty();
        assert(put_path(order, before, p@) =~= put_path(order, before.take(at as int), p@) + tail) by {
            assert(before.take(at as int) =~= before);
        }
        while at > 0 && !precedes(order, done[at - 1].as_str(), p.as_str())
            invariant
                at <= done.len(),
                before == text::views(done@),
                tail == before.skip(at as int),
                put_path(order, before, p@) == put_path(order, before.take(at as int), p@) + tail,
            decreases at,
        {
            proof {
                let s = before.take(at as int);
                assert(s.last() == done@[at - 1]@);
                assert(s.drop_last() =~= before.take(at - 1));
                assert(put_path(order, s, p@) == put_path(order, s.drop_last(), p@).push(s.last()));
                assert(put_path(order, s.drop_last(), p@).push(s.last()) + tail =~= put_path(
                    order,
                    s.drop_last(),
                    p@,
                ) + before.skip(at - 1));
                tail = before.skip(at - 1);
            }
            at = at - 1;
        }
        proof {
            let s = before.take(at as int);
            assert(at > 0 ==> s.last() == done@[at - 1]@);
            assert(put_path(order, s, p@) == s.push(p@));
        }
        let ghost was = done@;
        done.insert(at, p);
        proof {
            assert(text::views(done@) =~= before.take(at as int).push(p@) + before.skip(at as int));
            assert(paths@.take(i + 1).drop_last() =~= paths@.take(i as int));
            assert(text::views(paths@.take(i + 1)).drop_last() =~= text::views(
                paths@.take(i as int),
            ));
            assert(text::views(paths@.take(i + 1)).last() == p@);
        }
    }
    assert(paths@.take(paths@.len() as int) =~= paths@);
    done
}

// ---- Reading ----

/// What the first of `files` from the `i`-th on that has the path gave.
pub open spec fn contents_from(
    files: Seq<SysfsFile>,
    path: Seq<char>,
    i: int,
) -> Option<Contents>
    decreases files.len() - i,
{
    if i >= files.len() {
        None
    } else if files[i].path@ == path {
        Some(files[i].contents)
    } else {
        contents_from(files, path, i + 1)
    }
}

impl Sysfs {
    /// What reading the file at `path` gave, where it exists.
    pub open spec fn at(self, path: Seq<char>) -> Option<Contents> {
        contents_from(self.files@, path, 0)
    }

    /// The text of the file at `path`, where it could be read.
    pub open spec fn text_at(self, path: Seq<char>) -> Option<Seq<char>> {
        match self.at(path) {
            Some(Contents::Text(t)) => Some(t@),
            _ => None,
        }
    }

    /// What reading the file at `path` gave, where it exists.
    pub fn find(&self, path: &str) -> (r: Option<&Contents>)
        ensures
            match r {
                Some(c) => self.at(path@) == Some(*c),
                None => self.at(path@) is None,
            },
    {
        for i in 0..self.files.len()
            invariant
                self.at(path@) == contents_from(self.files@, path@, i as int),
        {
            if text::same(self.files[i].path.as_str(), path) {
                return Some(&self.files[i].contents);
            }
        }
        None
    }

    /// Whether there is a file at `path`.
    pub fn has(&self, path: &str) -> (r: bool)
        ensures
            r == (self.at(path@) is Some),
    {
        self.find(path).is_some()
    }

    /// The trimmed text of the file at `path`, where it could be read.
    pub fn read_string(&self, path: &str) -> (r: Option<String>)
        ensures
            match r {
                Some(s) => self.text_at(path@) matches Some(t) && s@ == text::trimmed(t),
                None => self.text_at(path@) is None,
            },
    {
        match self.find(path) {
            Some(Contents::Text(t)) => Some(text::trim(t.as_str())),
            _ => None,
        }
    }
}

/// What is wrong with the digits of `s` from position `i` on, when those before
/// it make the number `value`.
pub open spec fn digits_fault(s: Seq<char>, i: int, value: nat, max: nat) -> Option<bool>
    decreases s.len() - i,
{
    if i >= s.len() {
        None
    } else if !text::ascii_digit(s[i]) {
        Some(false)
    } else {
        let next = value * 10 + (s[i] as nat - '0' as nat) as nat;
        if next > max {
            Some(true)
        } else {
            digits_fault(s, i + 1, next, max)
        }
    }
}

/// Why `s` is no number: it is empty, it holds something else than digits
/// behind an optional sign, or it lies beyond the range. A minus sign counts as
/// a sign only where `min` is below zero.
pub open spec fn number_fault(s: Seq<char>, min: int, max: nat) -> Seq<char> {
    if s.len() == 0 {
        "cannot parse integer from empty string"@
    } else if s.len() == 1 && (s[0] == '+' || s[0] == '-') {
        "invalid digit found in string"@
    } else if s[0] == '-' && min < 0 {
        match digits_fault(s, 1, 0, (-min) as nat) {
            Some(true) => "number too small to fit in target type"@,
            _ => "invalid digit found in string"@,
        }
    } else {
        match digits_fault(s, if s[0] == '+' { 1 } else { 0 }, 0, max) {
            Some(true) => "number too large to fit in target type"@,
            _ => "invalid digit found in string"@,
        }
    }
}

fn find_digits_fault(s: &Vec<char>, from: usize, max: u64) -> (r: Option<bool>)
    requires
        from <= s.len(),
    ensures
        r == digits_fault(s@, from as int, 0, max as nat),
{
    let mut value: u64 = 0;
    let mut i: usize = from;
    while i < s.len()
        invariant
            from <= i <= s.len(),
            value <= max,
            digits_fault(s@, from as int, 0, max as nat) == digits_fault(
                s@,
                i as int,
                value as nat,
                max as nat,
            ),
        decreases s.len() - i,
    {
        let c = s[i];
        if !('0' <= c && c <= '9') {
            return Some(false);
        }
        let next: u128 = value as u128 * 10 + (c as u32 - '0' as u32) as u128;
        if next > max as u128 {
            return Some(true);
        }
        value = next as u64;
        i = i + 1;
    }
    None
}

fn number_fault_of(s: &str, negative: u64, max: u64) -> (r: String)
    ensures
        r@ == number_fault(s@, -(negative as int), max as nat),
{
    let v = text::chars_of(s);
    if v.len() == 0 {
        return "cannot parse integer from empty string".to_owned();
    }
    if v.len() == 1 && (v[0] == '+' || v[0] == '-') {
        return "invalid digit found in string".to_owned();
    }
    if v[0] == '-' && negative > 0 {
        return match find_digits_fault(&v, 1, negative) {
            Some(true) => "number too small to fit in target type".to_owned(),
            _ => "invalid digit found in string".to_owned(),
        };
    }
    let from: usize = if v[0] == '+' {
        1
    } else {
        0
    };
    match find_digits_fault(&v, from, max) {
        Some(true) => "number too large to fit in target type".to_owned(),
        _ => "invalid digit found in string".to_owned(),
    }
}

/// Why the text at `path` could not be had.
pub open spec fn read_failure(path: Seq<char>, cause: Seq<char>) -> Seq<char> {
    "failed to read "@ + path + ": "@ + cause
}

/// Why the number at `path` could not be had.
pub open spec fn parse_failure(path: Seq<char>, cause: Seq<char>) -> Seq<char> {
    "failed to parse "@ + path + ": "@ + cause
}

/// The system's words for a file that does not exist.
pub open spec fn no_such_file() -> Seq<char> {
    "No such file or directory (os error 2)"@
}

impl Sysfs {
    /// The number up to `max` that the file at `path` holds, or why there is
    /// none.
    pub open spec fn number_at(self, path: Seq<char>, max: nat) -> Result<nat, Seq<char>> {
        match self.at(path) {
            None => Err(read_failure(path, no_such_file())),
            Some(Contents::Unreadable(e)) => Err(read_failure(path, e@)),
            Some(Contents::Text(t)) => match text::unsigned_of(text::trimmed(t@), max) {
                Some(n) => Ok(n),
                None => Err(parse_failure(path, number_fault(text::trimmed(t@), 0, max))),
            },
        }
    }

    /// The signed number that the file at `path` holds, or why there is none.
    pub open spec fn signed_at(self, path: Seq<char>) -> Result<int, Seq<char>> {
        match self.at(path) {
            None => Err(read_failure(path, no_such_file())),
            Some(Contents::Unreadable(e)) => Err(read_failure(path, e@)),
            Some(Contents::Text(t)) => match text::signed_of(text::trimmed(t@)) {
                Some(n) => Ok(n),
                None => Err(
                    parse_failure(
                        path,
                        number_fault(
                            text::trimmed(t@),
                            -0x8000_0000_0000_0000,
                            0x7fff_ffff_ffff_ffff,
                        ),
                    ),
                ),
            },
        }
    }

    fn read_text(&self, path: &str) -> (r: Result<String, String>)
        ensures
            match r {
                Ok(s) => self.at(path@) matches Some(Contents::Text(t)) && s@ == text::trimmed(t@),
                Err(m) => match self.at(path@) {
                    None => m@ == read_failure(path@, no_such_file()),
                    Some(Contents::Unreadable(e)) => m@ == read_failure(path@, e@),
                    Some(Contents::Text(_)) => false,
                },
            },
    {
        match self.find(path) {
            None => Err(
                text::around("failed to read ", path, ": ").concat(
                    "No such file or directory (os error 2)",
                ),
            ),
            Some(Contents::Unreadable(e)) => Err(
                text::around("failed to read ", path, ": ").concat(e.as_str()),
            ),
            Some(Contents::Text(t)) => Ok(text::trim(t.as_str())),
        }
    }
}

/// The number up to `max` that the file at `path` holds.
pub fn read_sysfs(sysfs: &Sysfs, path: &str, max: u64) -> (r: Result<u64, String>)
    ensures
        match r {
            Ok(n) => n <= max && sysfs.number_at(path@, max as nat) == Ok::<nat, Seq<char>>(
                n as nat,
            ),
            Err(m) => sysfs.number_at(path@, max as nat) == Err::<nat, Seq<char>>(m@),
        },
{
    match sysfs.read_text(path) {
        Err(m) => Err(m),
        Ok(s) => match text::parse_unsigned(s.as_str(), max) {
            Some(n) => Ok(n),
            None => {
                let cause = number_fault_of(s.as_str(), 0, max);
                Err(text::around("failed to parse ", path, ": ").concat(cause.as_str()))
            },
        },
    }
}

/// The signed number that the file at `path` holds.
pub fn read_sysfs_signed(sysfs: &Sysfs, path: &str) -> (r: Result<i64, String>)
    ensures
        match r {
            Ok(n) => sysfs.signed_at(path@) == Ok::<int, Seq<char>>(n as int),
            Err(m) => sysfs.signed_at(path@) == Err::<int, Seq<char>>(m@),
        },
{
    match sysfs.read_text(path) {
        Err(m) => Err(m),
        Ok(s) => match text::parse_signed(s.as_str()) {
            Some(n) => Ok(n),
            None => {
                let cause = number_fault_of(
                    s.as_str(),
                    0x8000_0000_0000_0000,
                    0x7fff_ffff_ffff_ffff,
                );
                Err(text::around("failed to parse ", path, ": ").concat(cause.as_str()))
            },
        },
    }
}

// ---- Writing ----

/// The texts that files hold, by path.
pub open spec fn performed(
    files: Map<Seq<char>, Seq<char>>,
    writes: Seq<SysfsWrite>,
) -> Map<Seq<char>, Seq<char>>
    decreases writes.len(),
{
    if writes.len() == 0 {
        files
    } else {
        performed(files, writes.drop_last()).insert(writes.last().path@, writes.last().value@)
    }
}

/// The write of `value` to `path`.
pub fn write_sysfs(path: &str, value: &str) -> (r: SysfsWrite)
    ensures
        r.path@ == path@,
        r.value@ == value@,
{
    SysfsWrite { path: path.to_owned(), value: value.to_owned() }
}

impl SysfsWrite {
    /// The text that tells a user that this write failed for the reason `cause`.
    pub open spec fn failure_text(self, cause: Seq<char>) -> Seq<char> {
        "failed to write '"@ + self.value@ + "' to "@ + self.path@ + ": "@ + cause
    }

    /// The text that tells a user that this write failed for the reason `cause`.
    pub fn failure(&self, cause: &str) -> (r: String)
        ensures
            r@ == self.failure_text(cause@),
    {
        text::around("failed to write '", self.value.as_str(), "' to ").concat(
            self.path.as_str(),
        ).concat(": ").concat(cause)
    }
}

// ---- Chips ----

/// Whether the `name` file in the directory `dir` names the chip.
pub open spec fn names_chip(sysfs: Sysfs, dir: Seq<char>, chip: Seq<char>) -> bool {
    sysfs.text_at(below(dir, "name"@)) matches Some(t) && text::trimmed(t) == chip
}

/// The listed directories whose `name` file names the chip, as listed.
pub open spec fn chip_dirs(
    sysfs: Sysfs,
    entries: Seq<DirEntry>,
    chip: Seq<char>,
) -> Seq<Seq<char>>
    decreases entries.len(),
{
    if entries.len() == 0 {
        Seq::empty()
    } else {
        let rest = chip_dirs(sysfs, entries.drop_last(), chip);
        match entries.last() {
            DirEntry::Path(p) => if names_chip(sysfs, p@, chip) {
                rest.push(p@)
            } else {
                rest
            },
            DirEntry::Failed(_) => rest,
        }
    }
}

/// Why the first failed step of a listing failed.
pub open spec fn first_failure(entries: Seq<DirEntry>) -> Option<Seq<char>>
    decreases entries.len(),
{
    if entries.len() == 0 {
        None
    } else {
        match first_failure(entries.drop_last()) {
            Some(e) => Some(e),
            None => match entries.last() {
                DirEntry::Failed(e) => Some(e@),
                DirEntry::Path(_) => None,
            },
        }
    }
}

/// The directories of the chips with the name, as listed, or why there are none.
pub open spec fn hwmon_paths(sysfs: Sysfs, chip: Seq<char>) -> Result<Seq<Seq<char>>, Seq<char>> {
    match sysfs.listing {
        Listing::Missing => Err(read_failure(hwmon_base(), no_such_file())),
        Listing::Failed(e) => Err(read_failure(hwmon_base(), e@)),
        Listing::Entries(entries) => match first_failure(entries@) {
            Some(e) => Err(e),
            None => {
                let dirs = chip_dirs(sysfs, entries@, chip);
                if dirs.len() == 0 {
                    Err("hwmon chip '"@ + chip + "' not found in /sys/class/hwmon"@)
                } else {
                    Ok(dirs)
                }
            },
        },
    }
}

/// Find all hwmon directories whose chip has the name.
pub fn find_hwmon_paths(sysfs: &Sysfs, chip_name: &str) -> (r: Result<Vec<String>, String>)
    ensures
        match r {
            Ok(v) => v.len() > 0 && hwmon_paths(*sysfs, chip_name@) == Ok::<
                Seq<Seq<char>>,
                Seq<char>,
            >(text::views(v@)),
            Err(m) => hwmon_paths(*sysfs, chip_name@) == Err::<Seq<Seq<char>>, Seq<char>>(m@),
        },
{
    match &sysfs.listing {
        Listing::Missing => Err(
            text::around("failed to read ", "/sys/class/hwmon", ": ").concat(
                "No such file or directory (os error 2)",
            ),
        ),
        Listing::Failed(e) => Err(
            text::around("failed to read ", "/sys/class/hwmon", ": ").concat(e.as_str()),
        ),
        Listing::Entries(entries) => {
            let mut paths: Vec<String> = Vec::new();
            assert(text::views(paths@) =~= chip_dirs(*sysfs, entries@.take(0), chip_name@));
            for i in 0..entries.len()
                invariant
                    sysfs.listing == Listing::Entries(*entries),
                    first_failure(entries@.take(i as int)) is None,
                    text::views(paths@) == chip_dirs(
                        *sysfs,
                        entries@.take(i as int),
                        chip_name@,
                    ),
            {
                assert(entries@.take(i + 1).drop_last() =~= entries@.take(i as int));
                match &entries[i] {
                    DirEntry::Failed(e) => {
                        proof {
                            lemma_first_failure_stands(entries@, i + 1);
                        }
                        return Err(e.clone());
                    },
                    DirEntry::Path(p) => {
                        let named = match sysfs.read_string(
                            join(p.as_str(), "name").as_str(),
                        ) {
                            Some(t) => text::same(t.as_str(), chip_name),
                            None => false,
                        };
                        if named {
                            let ghost was = paths@;
                            paths.push(p.clone());
                            assert(text::views(paths@) =~= text::views(was).push(p@));
                        }
                    },
                }
            }
            assert(entries@.take(entries@.len() as int) =~= entries@);
            if paths.len() == 0 {
                return Err(
                    text::around("hwmon chip '", chip_name, "' not found in /sys/class/hwmon"),
                );
            }
            Ok(paths)
        },
    }
}

pub proof fn lemma_first_failure_stands(entries: Seq<DirEntry>, n: int)
    requires
        0 <= n <= entries.len(),
        first_failure(entries.take(n)) is Some,
    ensures
        first_failure(entries) == first_failure(entries.take(n)),
    decreases entries.len() - n,
{
    if n < entries.len() {
        assert(entries.take(n + 1).drop_last() =~= entries.take(n));
        lemma_first_failure_stands(entries, n + 1);
    } else {
        assert(entries.take(n) =~= entries);
    }
}

/// Find the hwmon directory of the chip with the name: where several chips share
/// it, the first one listed.
pub fn find_hwmon_path(sysfs: &Sysfs, chip_name: &str) -> (r: Result<String, String>)
    ensures
        match (r, hwmon_paths(*sysfs, chip_name@)) {
            (Ok(p), Ok(dirs)) => p@ == dirs[0],
            (Err(m), Err(e)) => m@ == e,
            _ => false,
        },
{
    match find_hwmon_paths(sysfs, chip_name) {
        Ok(v) => Ok(v[0].clone()),
        Err(m) => Err(m),
    }
}

// ---- Laws of ordering ----

/// Putting paths in order keeps exactly the paths that there are; where none occurs
/// twice, none does so afterwards.
pub proof fn law_ordered_keeps(order: PathOrder, s: Seq<Seq<char>>)
    ensures
        forall|p: Seq<char>| #[trigger] ordered(order, s).contains(p) <==> s.contains(p),
        s.no_duplicates() ==> ordered(order, s).no_duplicates(),
{
    broadcast use vstd::seq_lib::group_to_multiset_ensures;

    let t = ordered(order, s);
    law_ordered(order, s);
    assert forall|p: Seq<char>| #[trigger] t.contains(p) <==> s.contains(p) by {
        assert(t.to_multiset().count(p) == s.to_multiset().count(p));
    }
    if s.no_duplicates() {
        s.lemma_multiset_has_no_duplicates();
        t.lemma_multiset_has_no_duplicates_conv();
    }
}

/// A path that is a name followed by a number ends in that number, however many
/// digits it has.
pub proof fn law_end_number(name: Seq<char>, n: nat)
    requires
        name.len() == 0 || !('0' <= name.last() && name.last() <= '9'),
    ensures
        is_numbered(name + text::decimal(n)),
        end_number(name + text::decimal(n)) == n,
    decreases n,
{
    let path = name + text::decimal(n);
    if n < 10 {
        assert(path.drop_last() =~= name);
        assert(end_number(name) == 0);
    } else {
        law_end_number(name, n / 10);
        assert(path.drop_last() =~= name + text::decimal(n / 10));
    }
}

// ---- Laws of reading ----

/// What a file is seen to hold is what the first file of that path gave; a file is
/// seen exactly where one has that path.
pub proof fn law_at(sysfs: Sysfs, path: Seq<char>)
    ensures
        match sysfs.at(path) {
            None => forall|i: int|
                0 <= i < sysfs.files@.len() ==> (#[trigger] sysfs.files@[i]).path@ != path,
            Some(c) => exists|i: int|
                {
                    &&& 0 <= i < sysfs.files@.len()
                    &&& (#[trigger] sysfs.files@[i]).path@ == path
                    &&& sysfs.files@[i].contents == c
                    &&& forall|j: int| 0 <= j < i ==> (#[trigger] sysfs.files@[j]).path@ != path
                },
        },
        sysfs.text_at(path) == match sysfs.at(path) {
            Some(Contents::Text(t)) => Some(t@),
            _ => None,
        },
{
    lemma_contents_from(sysfs.files@, path, 0);
}

proof fn lemma_contents_from(files: Seq<SysfsFile>, path: Seq<char>, from: int)
    requires
        0 <= from <= files.len(),
    ensures
        match contents_from(files, path, from) {
            None => forall|i: int| from <= i < files.len() ==> (#[trigger] files[i]).path@ != path,
            Some(c) => exists|i: int|
                {
                    &&& from <= i < files.len()
                    &&& (#[trigger] files[i]).path@ == path
                    &&& files[i].contents == c
                    &&& forall|j: int| from <= j < i ==> (#[trigger] files[j]).path@ != path
                },
        },
    decreases files.len() - from,
{
    if from < files.len() {
        lemma_contents_from(files, path, from + 1);
        if files[from].path@ == path {
            assert(files[from].contents == files[from].contents);
        } else if let Some(c) = contents_from(files, path, from + 1) {
            let i = choose|i: int|
                {
                    &&& from + 1 <= i < files.len()
                    &&& (#[trigger] files[i]).path@ == path
                    &&& files[i].contents == c
                    &&& forall|j: int| from + 1 <= j < i ==> (#[trigger] files[j]).path@ != path
                };
            assert(files[i].path@ == path);
        }
    }
}

/// A number reads back as it was written, whatever white space stands around it; it is
/// refused where it exceeds what is asked for, and where the file is not there or
/// could not be read.
pub proof fn law_number_reads_back(sysfs: Sysfs, path: Seq<char>, n: nat, max: nat)
    ensures
        sysfs.text_at(path) matches Some(t) ==> text::trimmed(t) == text::decimal(n) ==> if n
            <= max {
            sysfs.number_at(path, max) == Ok::<nat, Seq<char>>(n)
        } else {
            sysfs.number_at(path, max) is Err
        },
        sysfs.text_at(path) is None ==> sysfs.number_at(path, max) is Err && sysfs.signed_at(
            path,
        ) is Err,
        sysfs.number_at(path, max) matches Ok(v) ==> v <= max,
{
    text::law_decimal_reads_back(n);
    text::law_no_sign(n);
}

/// A signed number reads back as it was written.
pub proof fn law_signed_reads_back(sysfs: Sysfs, path: Seq<char>, n: i64)
    ensures
        sysfs.text_at(path) matches Some(t) ==> text::trimmed(t) == text::signed_decimal(n as int)
            ==> sysfs.signed_at(path) == Ok::<int, Seq<char>>(n as int),
{
    text::law_signed_reads_back(n);
}

/// The directories of a chip are those listed whose `name` file holds the chip's name,
/// all of them, as listed; there is an answer exactly where the listing went through
/// and there is one.
pub proof fn law_hwmon_paths(sysfs: Sysfs, chip: Seq<char>)
    ensures
        match sysfs.listing {
            Listing::Entries(entries) => {
                let named = entries@.filter(
                    |e: DirEntry|
                        e matches DirEntry::Path(p) && (sysfs.text_at(below(p@, "name"@)) matches Some(
                            t,
                        ) && text::trimmed(t) == chip),
                ).map_values(|e: DirEntry| e->Path_0@);
                if (forall|i: int| 0 <= i < entries@.len() ==> #[trigger] entries@[i] is Path)
                    && named.len() > 0 {
                    hwmon_paths(sysfs, chip) == Ok::<Seq<Seq<char>>, Seq<char>>(named)
                } else {
                    hwmon_paths(sysfs, chip) is Err
                }
            },
            _ => hwmon_paths(sysfs, chip) is Err,
        },
{
    if let Listing::Entries(entries) = sysfs.listing {
        lemma_chip_dirs(sysfs, entries@, chip);
        lemma_first_failure(entries@);
    }
}

proof fn lemma_chip_dirs(sysfs: Sysfs, entries: Seq<DirEntry>, chip: Seq<char>)
    ensures
        chip_dirs(sysfs, entries, chip) == entries.filter(
            |e: DirEntry|
                e matches DirEntry::Path(p) && (sysfs.text_at(below(p@, "name"@)) matches Some(t)
                    && text::trimmed(t) == chip),
        ).map_values(|e: DirEntry| e->Path_0@),
    decreases entries.len(),
{
    reveal(Seq::filter);
    let pred = |e: DirEntry|
        e matches DirEntry::Path(p) && (sysfs.text_at(below(p@, "name"@)) matches Some(t)
            && text::trimmed(t) == chip);
    let path = |e: DirEntry| e->Path_0@;
    if entries.len() > 0 {
        let rest = entries.drop_last();
        lemma_chip_dirs(sysfs, rest, chip);
        if pred(entries.last()) {
            assert(rest.filter(pred).push(entries.last()).map_values(path) =~= rest.filter(
                pred,
            ).map_values(path).push(entries.last()->Path_0@));
        }
    }
    assert(chip_dirs(sysfs, entries, chip) =~= entries.filter(pred).map_values(path));
}

pub proof fn lemma_first_failure(entries: Seq<DirEntry>)
    ensures
        first_failure(entries) is None <==> forall|i: int|
            0 <= i < entries.len() ==> #[trigger] entries[i] is Path,
    decreases entries.len(),
{
    if entries.len() > 0 {
        let rest = entries.drop_last();
        lemma_first_failure(rest);
        if first_failure(entries) is None {
            assert forall|i: int| 0 <= i < entries.len() implies #[trigger] entries[i] is Path by {
                if i < rest.len() {
                    assert(rest[i] is Path);
                }
            }
        }
        if forall|i: int| 0 <= i < entries.len() ==> #[trigger] entries[i] is Path {
            assert forall|i: int| 0 <= i < rest.len() implies #[trigger] rest[i] is Path by {
                assert(entries[i] is Path);
            }
            assert(entries[entries.len() - 1] is Path);
        }
    }
}

/// After a run of writes, a file holds what the last write to it wrote, and one that
/// was not written to holds what it held.
pub proof fn law_last_write_stands(
    files: Map<Seq<char>, Seq<char>>,
    writes: Seq<SysfsWrite>,
    i: int,
    path: Seq<char>,
)
    ensures
        0 <= i < writes.len() && writes[i].path@ == path && (forall|j: int|
            i < j < writes.len() ==> (#[trigger] writes[j]).path@ != path) ==> performed(
            files,
            writes,
        ).contains_pair(path, writes[i].value@),
        (forall|j: int| 0 <= j < writes.len() ==> (#[trigger] writes[j]).path@ != path) ==> {
            &&& performed(files, writes).contains_key(path) == files.contains_key(path)
            &&& performed(files, writes)[path] == files[path]
        },
    decreases writes.len(),
{
    if writes.len() > 0 {
        let rest = writes.drop_last();
        law_last_write_stands(files, rest, i, path);
        assert forall|j: int| 0 <= j < rest.len() implies #[trigger] rest[j] == writes[j] by {}
        if writes.last().path@ == path {
            assert(writes[writes.len() - 1].path@ == path);
        }
    }
}

/// Paths are ordered by the first character in which they differ, a separator before any
/// other and the others by their code points; a path stands before one that goes on
/// behind it. `i` is that place.
pub proof fn law_path_order(a: Seq<char>, b: Seq<char>, i: int)
    requires
        0 <= i <= a.len(),
        i <= b.len(),
        a.subrange(0, i) == b.subrange(0, i),
        i < a.len() && i < b.len() ==> a[i] != b[i],
    ensures
        i == a.len() ==> path_le(a, b),
        i == b.len() && i < a.len() ==> !path_le(a, b),
        i < a.len() && i < b.len() ==> (path_le(a, b) <==> a[i] == '/' || (b[i] != '/' && (
        a[i] as int) < b[i] as int)),
{
    lemma_path_order(a, b, 0, i);
    if i < a.len() && i < b.len() {
        lemma_separator_first(a[i], b[i]);
    }
}

proof fn lemma_separator_first(x: char, y: char)
    requires
        x != y,
    ensures
        path_rank(x) < path_rank(y) <==> x == '/' || (y != '/' && (x as int) < y as int),
{
}

proof fn lemma_path_order(a: Seq<char>, b: Seq<char>, k: int, i: int)
    requires
        0 <= k <= i <= a.len(),
        i <= b.len(),
        a.subrange(0, i) == b.subrange(0, i),
    ensures
        path_le_from(a, b, k) == path_le_from(a, b, i),
    decreases i - k,
{
    if k < i {
        assert(a.subrange(0, i)[k] == a[k] && b.subrange(0, i)[k] == b[k]);
        assert(a[k] == b[k]);
        lemma_path_order(a, b, k + 1, i);
    }
}

/// By number, paths that end in one come before those that do not, the smaller number
/// first; paths with the same number, and those without any, are ordered as texts.
pub proof fn law_number_order(a: Seq<char>, b: Seq<char>)
    ensures
        ({
            let is_digit = |c: char| '0' <= c && c <= '9';
            let (m, n) = (a.len() > 0 && is_digit(a.last()), b.len() > 0 && is_digit(b.last()));
            let o = PathOrder::Number;
            &&& m && !n ==> o.allows(a, b) && !o.allows(b, a)
            &&& m && n && end_number(a) < end_number(b) ==> o.allows(a, b) && !o.allows(b, a)
            &&& m && n && end_number(a) == end_number(b) ==> o.allows(a, b) == path_le(a, b)
            &&& !m && !n ==> o.allows(a, b) == path_le(a, b)
        }),
{
}

} // verus!
