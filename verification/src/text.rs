//! Character sequences: the vocabulary in which the rest of the library states
//! what it reads and writes.

use vstd::prelude::*;
use vstd::slice::slice_subrange;

verus! {

/// `String::push` appends one character.
pub assume_specification[ String::push ](s: &mut String, c: char)
    ensures
        final(s)@ == old(s)@.push(c),
;

/// The text of an optional string.
pub open spec fn opt_text(s: Option<String>) -> Option<Seq<char>> {
    match s {
        Some(t) => Some(t@),
        None => None,
    }
}

/// The texts of a list of strings.
pub open spec fn texts(list: Seq<String>) -> Seq<Seq<char>> {
    Seq::new(list.len(), |i: int| list[i]@)
}

/// The texts of a list of owned character buffers.
pub open spec fn buffers(list: Seq<Vec<char>>) -> Seq<Seq<char>> {
    Seq::new(list.len(), |i: int| list[i]@)
}

/// The characters of a string.
pub fn chars_of(s: &str) -> (r: Vec<char>)
    ensures
        r@ == s@,
{
    let mut out: Vec<char> = Vec::new();
    for c in it: s.chars()
        invariant
            out@ == it.seq().take(it.index()),
            it.seq() == s@,
    {
        out.push(c);
    }
    out
}

/// A copy of the given characters.
pub fn copy_chars(chars: &[char]) -> (r: Vec<char>)
    ensures
        r@ == chars@,
{
    let mut out: Vec<char> = Vec::new();
    for i in 0..chars.len()
        invariant
            out@ == chars@.take(i as int),
    {
        out.push(chars[i]);
    }
    out
}

/// The string that holds the given characters.
pub fn string_of(chars: &[char]) -> (r: String)
    ensures
        r@ == chars@,
{
    let mut out = String::new();
    for i in 0..chars.len()
        invariant
            out@ == chars@.take(i as int),
    {
        out.push(chars[i]);
    }
    out
}

pub fn same_chars(a: &[char], b: &[char]) -> (r: bool)
    ensures
        r == (a@ == b@),
{
    if a.len() != b.len() {
        return false;
    }
    for i in 0..a.len()
        invariant
            a@.len() == b@.len(),
            forall|j: int| 0 <= j < i ==> a@[j] == b@[j],
    {
        if a[i] != b[i] {
            assert(a@[i as int] != b@[i as int]);
            return false;
        }
    }
    assert(a@ =~= b@);
    true
}

pub fn same_text(a: &str, b: &str) -> (r: bool)
    ensures
        r == (a@ == b@),
{
    same_chars(chars_of(a).as_slice(), chars_of(b).as_slice())
}

/// A copy of an optional string.
pub fn copy_opt(s: &Option<String>) -> (r: Option<String>)
    ensures
        r == *s,
{
    match s {
        Some(t) => Some(t.clone()),
        None => None,
    }
}

// ---- characters ----------------------------------------------------------

pub open spec fn is_digit(c: char) -> bool {
    '0' <= c <= '9'
}

pub fn digit(c: char) -> (r: bool)
    ensures
        r == is_digit(c),
{
    '0' <= c && c <= '9'
}

/// ASCII letters in lower case; every other character as it is.
pub open spec fn lower_char(c: char) -> char {
    if 'A' <= c <= 'Z' {
        ((c as int) + 32) as char
    } else {
        c
    }
}

pub fn to_lower_char(c: char) -> (r: char)
    ensures
        r == lower_char(c),
{
    if 'A' <= c && c <= 'Z' {
        ((c as u8) + 32) as char
    } else {
        c
    }
}

/// Unicode's `White_Space` property.
pub open spec fn is_space(c: char) -> bool {
    let n = c as int;
    ||| 0x9 <= n <= 0xd
    ||| n == 0x20
    ||| n == 0x85
    ||| n == 0xa0
    ||| n == 0x1680
    ||| 0x2000 <= n <= 0x200a
    ||| n == 0x2028
    ||| n == 0x2029
    ||| n == 0x202f
    ||| n == 0x205f
    ||| n == 0x3000
}

pub fn space(c: char) -> (r: bool)
    ensures
        r == is_space(c),
{
    let n: u32 = c as u32;
    (0x9 <= n && n <= 0xd) || n == 0x20 || n == 0x85 || n == 0xa0 || n == 0x1680 || (0x2000 <= n
        && n <= 0x200a) || n == 0x2028 || n == 0x2029 || n == 0x202f || n == 0x205f || n == 0x3000
}

// ---- lower case ----------------------------------------------------------

pub open spec fn lower(s: Seq<char>) -> Seq<char> {
    Seq::new(s.len(), |i: int| lower_char(s[i]))
}

pub fn to_lower(s: &[char]) -> (r: Vec<char>)
    ensures
        r@ == lower(s@),
{
    let mut out: Vec<char> = Vec::new();
    for i in 0..s.len()
        invariant
            out@ =~= lower(s@.take(i as int)),
    {
        out.push(to_lower_char(s[i]));
    }
    assert(s@.take(s@.len() as int) =~= s@);
    out
}

/// Equality up to the case of ASCII letters.
pub fn same_ignoring_case(a: &[char], b: &[char]) -> (r: bool)
    ensures
        r == (lower(a@) == lower(b@)),
{
    same_chars(to_lower(a).as_slice(), to_lower(b).as_slice())
}

// ---- trimming ------------------------------------------------------------

pub open spec fn trim_start(s: Seq<char>) -> Seq<char>
    decreases s.len(),
{
    if s.len() > 0 && is_space(s[0]) {
        trim_start(s.drop_first())
    } else {
        s
    }
}

pub open spec fn trim_end(s: Seq<char>) -> Seq<char>
    decreases s.len(),
{
    if s.len() > 0 && is_space(s.last()) {
        trim_end(s.drop_last())
    } else {
        s
    }
}

/// What is left without the white space at either end.
pub open spec fn trim(s: Seq<char>) -> Seq<char> {
    trim_end(trim_start(s))
}

pub fn trimmed(s: &[char]) -> (r: &[char])
    ensures
        r@ == trim(s@),
{
    let mut from: usize = 0;
    assert(s@.skip(0) =~= s@);
    while from < s.len() && space(s[from])
        invariant
            from <= s@.len(),
            trim_start(s@.skip(from as int)) == trim_start(s@),
        decreases s.len() - from,
    {
        assert(s@.skip(from as int).drop_first() =~= s@.skip(from + 1));
        from = from + 1;
    }
    assert(trim_start(s@) == s@.skip(from as int));
    let mut to: usize = s.len();
    assert(s@.subrange(from as int, to as int) =~= s@.skip(from as int));
    while to > from && space(s[to - 1])
        invariant
            from <= to <= s@.len(),
            trim_end(s@.subrange(from as int, to as int)) == trim_end(s@.skip(from as int)),
        decreases to,
    {
        assert(s@.subrange(from as int, to as int).drop_last() =~= s@.subrange(
            from as int,
            to - 1,
        ));
        to = to - 1;
    }
    slice_subrange(s, from, to)
}

// ---- searching -----------------------------------------------------------

pub open spec fn has_prefix(s: Seq<char>, p: Seq<char>) -> bool {
    p.len() <= s.len() && s.take(p.len() as int) == p
}

pub fn starts_with(s: &[char], p: &[char]) -> (r: bool)
    ensures
        r == has_prefix(s@, p@),
{
    if p.len() > s.len() {
        return false;
    }
    let head = slice_subrange(s, 0, p.len());
    assert(head@ =~= s@.take(p@.len() as int));
    same_chars(head, p)
}

/// `p` stands in `s` from position `i` on.
pub open spec fn occurs_at(s: Seq<char>, p: Seq<char>, i: int) -> bool {
    0 <= i && i + p.len() <= s.len() && s.subrange(i, i + p.len()) == p
}

pub open spec fn contains(s: Seq<char>, p: Seq<char>) -> bool {
    exists|i: int| occurs_at(s, p, i)
}

/// The first position of `p` in `s`.
pub fn find(s: &[char], p: &[char]) -> (r: Option<usize>)
    ensures
        r matches Some(i) ==> occurs_at(s@, p@, i as int) && forall|j: int|
            0 <= j < i ==> !occurs_at(s@, p@, j),
        r is None ==> !contains(s@, p@),
{
    if p.len() > s.len() {
        return None;
    }
    let last: usize = s.len() - p.len();
    let mut i: usize = 0;
    loop
        invariant
            last + p@.len() == s@.len() <= usize::MAX,
            i <= last,
            forall|j: int| 0 <= j < i ==> !occurs_at(s@, p@, j),
        decreases last - i,
    {
        if same_chars(slice_subrange(s, i, i + p.len()), p) {
            return Some(i);
        }
        if i == last {
            return None;
        }
        i = i + 1;
    }
}

pub fn has(s: &[char], p: &[char]) -> (r: bool)
    ensures
        r == contains(s@, p@),
{
    find(s, p).is_some()
}

// ---- splitting -----------------------------------------------------------

/// The pieces of `s` between the characters of `seps`: always one more than
/// there are separators.
pub open spec fn split(s: Seq<char>, seps: Seq<char>) -> Seq<Seq<char>>
    decreases s.len(),
{
    if s.len() == 0 {
        seq![Seq::<char>::empty()]
    } else {
        let head = split(s.drop_last(), seps);
        if seps.contains(s.last()) {
            head.push(Seq::<char>::empty())
        } else {
            head.drop_last().push(head.last().push(s.last()))
        }
    }
}

pub proof fn lemma_split_nonempty(s: Seq<char>, seps: Seq<char>)
    ensures
        split(s, seps).len() > 0,
    decreases s.len(),
{
    if s.len() > 0 {
        lemma_split_nonempty(s.drop_last(), seps);
    }
}

fn is_one_of(c: char, set: &[char]) -> (r: bool)
    ensures
        r == set@.contains(c),
{
    for i in 0..set.len()
        invariant
            forall|j: int| 0 <= j < i ==> set@[j] != c,
    {
        if set[i] == c {
            return true;
        }
    }
    false
}

pub fn split_chars(s: &[char], seps: &[char]) -> (r: Vec<Vec<char>>)
    ensures
        buffers(r@) == split(s@, seps@),
{
    let mut done: Vec<Vec<char>> = Vec::new();
    let mut current: Vec<char> = Vec::new();
    assert(buffers(done@).push(current@) =~= split(s@.take(0), seps@));
    for i in 0..s.len()
        invariant
            buffers(done@).push(current@) == split(s@.take(i as int), seps@),
    {
        let ghost before = split(s@.take(i as int), seps@);
        let ghost finished = buffers(done@);
        assert(s@.take(i + 1).drop_last() =~= s@.take(i as int));
        assert(before.drop_last() =~= finished);
        let c = s[i];
        if is_one_of(c, seps) {
            done.push(current);
            current = Vec::new();
            assert(buffers(done@) =~= before);
        } else {
            current.push(c);
        }
    }
    assert(s@.take(s@.len() as int) =~= s@);
    let ghost finished = buffers(done@);
    done.push(current);
    assert(buffers(done@) =~= finished.push(current@));
    done
}

/// Each piece without the white space at its ends.
pub open spec fn trim_all(pieces: Seq<Seq<char>>) -> Seq<Seq<char>> {
    Seq::new(pieces.len(), |i: int| trim(pieces[i]))
}

/// The pieces that are not empty.
pub open spec fn nonempty(pieces: Seq<Seq<char>>) -> Seq<Seq<char>>
    decreases pieces.len(),
{
    if pieces.len() == 0 {
        pieces
    } else if pieces.last().len() == 0 {
        nonempty(pieces.drop_last())
    } else {
        nonempty(pieces.drop_last()).push(pieces.last())
    }
}

/// The trimmed pieces of a text between the characters of `seps`.
pub fn fields(s: &[char], seps: &[char]) -> (r: Vec<Vec<char>>)
    ensures
        buffers(r@) == trim_all(split(s@, seps@)),
        r@.len() > 0,
{
    let pieces = split_chars(s, seps);
    proof {
        lemma_split_nonempty(s@, seps@);
        assert(buffers(pieces@).len() == pieces@.len());
    }
    let mut out: Vec<Vec<char>> = Vec::new();
    for i in 0..pieces.len()
        invariant
            buffers(out@) =~= trim_all(buffers(pieces@)).take(i as int),
    {
        let piece = copy_chars(trimmed(pieces[i].as_slice()));
        let ghost so_far = buffers(out@);
        out.push(piece);
        assert(buffers(out@) =~= so_far.push(piece@));
    }
    assert(buffers(out@) =~= trim_all(split(s@, seps@)));
    assert(buffers(out@).len() == out@.len());
    out
}

/// A line without the carriage return before its line feed.
pub open spec fn without_cr(line: Seq<char>) -> Seq<char> {
    if line.len() > 0 && line.last() == '\r' {
        line.drop_last()
    } else {
        line
    }
}

/// The lines of a text. Each ends at a line feed, with or without a carriage
/// return before it; what follows the last line feed is a line if it is not
/// empty.
pub open spec fn lines(s: Seq<char>) -> Seq<Seq<char>> {
    let pieces = split(s, seq!['\n']);
    let full = Seq::new((pieces.len() - 1) as nat, |i: int| without_cr(pieces[i]));
    if pieces.last().len() == 0 {
        full
    } else {
        full.push(pieces.last())
    }
}

pub fn lines_of(s: &str) -> (r: Vec<Vec<char>>)
    ensures
        buffers(r@) == lines(s@),
{
    let chars = chars_of(s);
    let feed: [char; 1] = ['\n'];
    assert(feed@ =~= seq!['\n']);
    let pieces = split_chars(chars.as_slice(), &feed);
    proof {
        lemma_split_nonempty(s@, feed@);
        assert(buffers(pieces@).len() == pieces@.len());
    }
    let last: usize = pieces.len() - 1;
    let mut out: Vec<Vec<char>> = Vec::new();
    for i in 0..last
        invariant
            last < pieces@.len(),
            buffers(out@) =~= Seq::new(
                i as nat,
                |j: int| without_cr(buffers(pieces@)[j]),
            ),
    {
        let piece = &pieces[i];
        let n: usize = piece.len();
        let line = if n > 0 && piece[n - 1] == '\r' {
            copy_chars(slice_subrange(piece.as_slice(), 0, n - 1))
        } else {
            copy_chars(piece.as_slice())
        };
        let ghost so_far = buffers(out@);
        assert(line@ =~= without_cr(piece@));
        out.push(line);
        assert(buffers(out@) =~= so_far.push(line@));
    }
    if pieces[last].len() > 0 {
        let ghost so_far = buffers(out@);
        let line = copy_chars(pieces[last].as_slice());
        out.push(line);
        assert(buffers(out@) =~= so_far.push(line@));
    }
    out
}

/// The pieces of a text between single characters of white space.
pub open spec fn space_split(s: Seq<char>) -> Seq<Seq<char>>
    decreases s.len(),
{
    if s.len() == 0 {
        seq![Seq::<char>::empty()]
    } else {
        let head = space_split(s.drop_last());
        if is_space(s.last()) {
            head.push(Seq::<char>::empty())
        } else {
            head.drop_last().push(head.last().push(s.last()))
        }
    }
}

/// The words of a text: its longest runs without white space.
pub open spec fn words(s: Seq<char>) -> Seq<Seq<char>> {
    nonempty(space_split(s))
}

pub fn words_of(s: &str) -> (r: Vec<Vec<char>>)
    ensures
        buffers(r@) == words(s@),
{
    let chars = chars_of(s);
    let mut done: Vec<Vec<char>> = Vec::new();
    let mut current: Vec<char> = Vec::new();
    let ghost mut pieces: Seq<Seq<char>> = Seq::empty();
    assert(pieces.push(current@) =~= space_split(s@.take(0)));
    assert(buffers(done@) =~= nonempty(pieces));
    for i in 0..chars.len()
        invariant
            chars@ == s@,
            pieces.push(current@) == space_split(s@.take(i as int)),
            buffers(done@) == nonempty(pieces),
    {
        assert(s@.take(i + 1).drop_last() =~= s@.take(i as int));
        assert(pieces.push(current@).drop_last() =~= pieces);
        let c = chars[i];
        if space(c) {
            let ghost so_far = buffers(done@);
            proof {
                pieces = pieces.push(current@);
            }
            assert(pieces.drop_last().push(current@) =~= pieces);
            if current.len() > 0 {
                done.push(current);
                assert(buffers(done@) =~= so_far.push(current@));
            }
            current = Vec::new();
        } else {
            current.push(c);
        }
    }
    assert(s@.take(s@.len() as int) =~= s@);
    assert(pieces.push(current@).drop_last() =~= pieces);
    if current.len() > 0 {
        let ghost so_far = buffers(done@);
        done.push(current);
        assert(buffers(done@) =~= so_far.push(current@));
    }
    done
}

// ---- order ---------------------------------------------------------------

/// The order of strings: character by character, by code point.
pub open spec fn text_less(a: Seq<char>, b: Seq<char>) -> bool
    decreases a.len(),
{
    if b.len() == 0 {
        false
    } else if a.len() == 0 {
        true
    } else if a[0] != b[0] {
        a[0] < b[0]
    } else {
        text_less(a.drop_first(), b.drop_first())
    }
}

pub fn chars_less(a: &[char], b: &[char]) -> (r: bool)
    ensures
        r == text_less(a@, b@),
{
    let mut i: usize = 0;
    assert(a@.skip(0) =~= a@);
    assert(b@.skip(0) =~= b@);
    while i < a.len() && i < b.len()
        invariant
            i <= a@.len(),
            i <= b@.len(),
            text_less(a@.skip(i as int), b@.skip(i as int)) == text_less(a@, b@),
        decreases a.len() - i,
    {
        let x = a[i];
        let y = b[i];
        if x != y {
            return x < y;
        }
        assert(a@.skip(i as int).drop_first() =~= a@.skip(i + 1));
        assert(b@.skip(i as int).drop_first() =~= b@.skip(i + 1));
        i = i + 1;
    }
    i < b.len()
}

pub proof fn lemma_text_less_irreflexive(a: Seq<char>)
    ensures
        !text_less(a, a),
    decreases a.len(),
{
    if a.len() > 0 {
        lemma_text_less_irreflexive(a.drop_first());
    }
}

pub proof fn lemma_text_less_transitive(a: Seq<char>, b: Seq<char>, c: Seq<char>)
    requires
        text_less(a, b),
        text_less(b, c),
    ensures
        text_less(a, c),
    decreases a.len(),
{
    if a.len() > 0 && a[0] == b[0] && b[0] == c[0] {
        lemma_text_less_transitive(a.drop_first(), b.drop_first(), c.drop_first());
    }
}

pub proof fn lemma_text_less_total(a: Seq<char>, b: Seq<char>)
    ensures
        a == b || text_less(a, b) || text_less(b, a),
    decreases a.len(),
{
    if a.len() > 0 && b.len() > 0 && a[0] == b[0] {
        lemma_text_less_total(a.drop_first(), b.drop_first());
        if a.drop_first() == b.drop_first() {
            assert(a =~= seq![a[0]] + a.drop_first());
            assert(b =~= seq![b[0]] + b.drop_first());
        }
    } else if a.len() == 0 && b.len() == 0 {
        assert(a =~= b);
    }
}

// ---- numbers -------------------------------------------------------------

pub open spec fn digit_char(d: nat) -> char {
    ((d % 10) + ('0' as int)) as char
}

/// A number in decimal notation.
pub open spec fn decimal(n: nat) -> Seq<char>
    decreases n,
{
    if n < 10 {
        seq![digit_char(n)]
    } else {
        decimal(n / 10).push(digit_char(n % 10))
    }
}

pub fn decimal_text(n: u64) -> (r: String)
    ensures
        r@ == decimal(n as nat),
    decreases n,
{
    let last: char = ('0' as u8 + (n % 10) as u8) as char;
    let mut out = if n < 10 {
        String::new()
    } else {
        decimal_text(n / 10)
    };
    out.push(last);
    assert(n < 10 ==> out@ =~= seq![last]);
    out
}

pub open spec fn all_digits(s: Seq<char>) -> bool {
    forall|i: int| 0 <= i < s.len() ==> is_digit(s[i])
}

/// The number that a run of digits denotes.
pub open spec fn digits_value(s: Seq<char>) -> nat
    decreases s.len(),
{
    if s.len() == 0 {
        0
    } else {
        (digits_value(s.drop_last()) * 10 + (s.last() as int - '0' as int)) as nat
    }
}

/// An unsigned number that is no greater than `max`: an optional plus sign and
/// one or more digits.
pub open spec fn unsigned(s: Seq<char>, max: nat) -> Option<nat> {
    let digits = if s.len() > 0 && s[0] == '+' {
        s.drop_first()
    } else {
        s
    };
    if digits.len() > 0 && all_digits(digits) && digits_value(digits) <= max {
        Some(digits_value(digits))
    } else {
        None
    }
}

pub proof fn lemma_digits_value_grows(s: Seq<char>, k: int)
    requires
        all_digits(s),
        0 <= k <= s.len(),
    ensures
        digits_value(s.take(k)) <= digits_value(s),
    decreases s.len() - k,
{
    if k < s.len() {
        lemma_digits_value_grows(s, k + 1);
        assert(s.take(k + 1).drop_last() =~= s.take(k));
    } else {
        assert(s.take(k) =~= s);
    }
}

/// Reads an unsigned number; `None` where `unsigned` has none below `max`.
pub fn parse_unsigned(s: &[char], max: u128) -> (r: Option<u128>)
    ensures
        match r {
            Some(n) => unsigned(s@, max as nat) == Some(n as nat),
            None => unsigned(s@, max as nat) is None,
        },
{
    let from: usize = if s.len() > 0 && s[0] == '+' {
        1
    } else {
        0
    };
    let ghost digits = s@.skip(from as int);
    assert(digits =~= if s@.len() > 0 && s@[0] == '+' {
        s@.drop_first()
    } else {
        s@
    });
    if from == s.len() {
        return None;
    }
    let mut value: u128 = 0;
    for i in from..s.len()
        invariant
            from <= s@.len(),
            digits == s@.skip(from as int),
            all_digits(digits.take(i - from)),
            value as nat == digits_value(digits.take(i - from)),
            value <= max,
            from < s@.len(),
            digits == if s@.len() > 0 && s@[0] == '+' {
                s@.drop_first()
            } else {
                s@
            },
    {
        let c = s[i];
        assert(digits[i - from] == c);
        if !digit(c) {
            return None;
        }
        let d: u128 = (c as u32 - '0' as u32) as u128;
        let ghost next = digits.take(i - from + 1);
        assert(next.drop_last() =~= digits.take(i - from));
        assert(digits_value(next) == value * 10 + d);
        proof {
            if all_digits(digits) {
                lemma_digits_value_grows(digits, i - from + 1);
            }
        }
        if value > (u128::MAX - d) / 10 {
            assert(value * 10 + d > u128::MAX);
            return None;
        }
        value = value * 10 + d;
        if value > max {
            return None;
        }
        assert forall|j: int| 0 <= j < next.len() implies is_digit(next[j]) by {
            if j < i - from {
                assert(digits.take(i - from)[j] == next[j]);
            }
        }
    }
    assert(digits.take(digits.len() as int) =~= digits);
    Some(value)
}

// ---- joining -------------------------------------------------------------

/// The parts one after the other, with `sep` between each two.
pub open spec fn join(parts: Seq<Seq<char>>, sep: Seq<char>) -> Seq<char>
    decreases parts.len(),
{
    if parts.len() == 0 {
        Seq::empty()
    } else if parts.len() == 1 {
        parts[0]
    } else {
        join(parts.drop_last(), sep) + sep + parts.last()
    }
}

pub fn join_texts(parts: &Vec<String>, sep: &str) -> (r: String)
    ensures
        r@ == join(texts(parts@), sep@),
{
    let mut out = String::new();
    for i in 0..parts.len()
        invariant
            out@ == join(texts(parts@).take(i as int), sep@),
    {
        let ghost so_far = texts(parts@).take(i as int);
        assert(texts(parts@).take(i + 1).drop_last() =~= so_far);
        if i > 0 {
            out.append(sep);
        } else {
            assert(out@ =~= Seq::<char>::empty());
        }
        out.append(parts[i].as_str());
        assert(i == 0 ==> out@ =~= parts@[0]@);
    }
    assert(texts(parts@).take(parts@.len() as int) =~= texts(parts@));
    out
}

// ---- padding -------------------------------------------------------------

pub open spec fn spaces(n: nat) -> Seq<char> {
    Seq::new(n, |i: int| ' ')
}

/// `s` filled up with blanks on the right to `width` characters; a longer text
/// stays as it is.
pub open spec fn padded(s: Seq<char>, width: nat) -> Seq<char> {
    if s.len() < width {
        s + spaces((width - s.len()) as nat)
    } else {
        s
    }
}

pub fn pad(s: &str, width: usize) -> (r: String)
    ensures
        r@ == padded(s@, width as nat),
{
    let mut out = s.to_string();
    let mut n: usize = s.unicode_len();
    while n < width
        invariant
            s@.len() <= n,
            n <= width || n == s@.len(),
            out@ =~= s@ + spaces((n - s@.len()) as nat),
        decreases width - n,
    {
        out.push(' ');
        n = n + 1;
    }
    out
}

// ---- laws ------------------------------------------------------------------

/// Lower case keeps the length, turns the letters from `A` to `Z` into those from
/// `a` to `z`, and keeps every other character.
pub proof fn law_lower_case(s: Seq<char>, i: int)
    requires
        0 <= i < s.len(),
    ensures
        lower(s).len() == s.len(),
        'A' <= s[i] <= 'Z' ==> lower(s)[i] as int == s[i] as int - 'A' as int + 'a' as int,
        !('A' <= s[i] <= 'Z') ==> lower(s)[i] == s[i],
{
}

/// Trimming takes white space from both ends and nothing else: what is left starts
/// and ends with another character, and stands in the text between white space.
pub proof fn law_trim_takes_only_the_ends(s: Seq<char>) -> (from: int)
    ensures
        0 <= from,
        from + trim(s).len() <= s.len(),
        trim(s) == s.subrange(from, from + trim(s).len()),
        forall|i: int|
            0 <= i < s.len() && (i < from || i >= from + trim(s).len()) ==> is_space(#[trigger] s[i]),
        trim(s).len() > 0 ==> !is_space(trim(s)[0]) && !is_space(trim(s).last()),
{
    let from = lemma_trim_start(s);
    let t = trim_start(s);
    lemma_trim_end(t);
    let r = trim(s);
    assert(r =~= s.subrange(from, from + r.len())) by {
        assert(t =~= s.skip(from));
        assert(r =~= t.take(r.len() as int));
    }
    assert forall|i: int| 0 <= i < s.len() && (i < from || i >= from + r.len()) implies is_space(
        #[trigger] s[i],
    ) by {
        if i >= from {
            assert(t[i - from] == s[i]);
        }
    }
    if r.len() > 0 {
        assert(r[0] == t[0]);
    }
    from
}

proof fn lemma_trim_start(s: Seq<char>) -> (n: int)
    ensures
        0 <= n <= s.len(),
        trim_start(s) == s.skip(n),
        forall|i: int| 0 <= i < n ==> is_space(#[trigger] s[i]),
        n < s.len() ==> !is_space(s[n]),
    decreases s.len(),
{
    if s.len() > 0 && is_space(s[0]) {
        let rest = s.drop_first();
        let n = lemma_trim_start(rest);
        assert(rest.skip(n) =~= s.skip(n + 1));
        assert forall|i: int| 0 <= i < n + 1 implies is_space(#[trigger] s[i]) by {
            if i > 0 {
                assert(rest[i - 1] == s[i]);
            }
        }
        assert(n < rest.len() ==> rest[n] == s[n + 1]);
        n + 1
    } else {
        assert(s.skip(0) =~= s);
        0
    }
}

proof fn lemma_trim_end(s: Seq<char>)
    ensures
        trim_end(s).len() <= s.len(),
        trim_end(s) == s.take(trim_end(s).len() as int),
        forall|i: int| trim_end(s).len() <= i < s.len() ==> is_space(#[trigger] s[i]),
        trim_end(s).len() > 0 ==> !is_space(trim_end(s).last()),
    decreases s.len(),
{
    if s.len() > 0 && is_space(s.last()) {
        lemma_trim_end(s.drop_last());
        let n = trim_end(s).len() as int;
        assert(s.drop_last().take(n) =~= s.take(n));
        assert forall|i: int| n <= i < s.len() implies is_space(#[trigger] s[i]) by {
            if i < s.len() - 1 {
                assert(s.drop_last()[i] == s[i]);
            }
        }
    } else {
        assert(s.take(s.len() as int) =~= s);
    }
}

/// A piece that is not empty is found among those that are not.
pub proof fn lemma_nonempty_keeps(pieces: Seq<Seq<char>>, i: int) -> (k: int)
    requires
        0 <= i < pieces.len(),
        pieces[i].len() > 0,
    ensures
        0 <= k < nonempty(pieces).len(),
        nonempty(pieces)[k] == pieces[i],
    decreases pieces.len(),
{
    if i == pieces.len() - 1 {
        nonempty(pieces).len() - 1
    } else {
        lemma_nonempty_keeps(pieces.drop_last(), i)
    }
}

/// What is among the pieces that are not empty is one of the pieces.
pub proof fn lemma_nonempty_comes_from(pieces: Seq<Seq<char>>, k: int) -> (i: int)
    requires
        0 <= k < nonempty(pieces).len(),
    ensures
        0 <= i < pieces.len(),
        pieces[i] == nonempty(pieces)[k],
        pieces[i].len() > 0,
    decreases pieces.len(),
{
    let head = nonempty(pieces.drop_last());
    if k < head.len() {
        lemma_nonempty_comes_from(pieces.drop_last(), k)
    } else {
        pieces.len() - 1
    }
}

/// The order of two texts is decided where they first differ: by the characters
/// there, or by which of them has ended.
pub proof fn law_texts_are_ordered_by_the_first_difference(a: Seq<char>, b: Seq<char>, k: int)
    requires
        0 <= k <= a.len(),
        k <= b.len(),
        forall|i: int| 0 <= i < k ==> a[i] == b[i],
    ensures
        k == b.len() ==> !text_less(a, b),
        k == a.len() && k < b.len() ==> text_less(a, b),
        k < a.len() && k < b.len() && a[k] < b[k] ==> text_less(a, b) && !text_less(b, a),
    decreases k,
{
    if k > 0 {
        let c = a.drop_first();
        let d = b.drop_first();
        assert forall|i: int| 0 <= i < k - 1 implies c[i] == d[i] by {
            assert(a[i + 1] == b[i + 1]);
        }
        law_texts_are_ordered_by_the_first_difference(c, d, k - 1);
    }
}

proof fn lemma_split_plain(s: Seq<char>, seps: Seq<char>)
    requires
        forall|i: int| 0 <= i < s.len() ==> !seps.contains(#[trigger] s[i]),
    ensures
        split(s, seps) == seq![s],
    decreases s.len(),
{
    if s.len() > 0 {
        let rest = s.drop_last();
        assert forall|i: int| 0 <= i < rest.len() implies !seps.contains(#[trigger] rest[i]) by {
            assert(rest[i] == s[i]);
        }
        lemma_split_plain(rest, seps);
        assert(!seps.contains(s[s.len() - 1]));
        assert(rest.push(s.last()) =~= s);
        assert(seq![rest].drop_last().push(rest.push(s.last())) =~= seq![s]);
    } else {
        assert(s =~= Seq::<char>::empty());
    }
}

proof fn lemma_split_behind(a: Seq<char>, sep: char, b: Seq<char>, seps: Seq<char>)
    requires
        seps.contains(sep),
        forall|i: int| 0 <= i < b.len() ==> !seps.contains(#[trigger] b[i]),
    ensures
        split(a.push(sep) + b, seps) == split(a, seps).push(b),
    decreases b.len(),
{
    let whole = a.push(sep) + b;
    if b.len() == 0 {
        assert(whole =~= a.push(sep));
        assert(whole.drop_last() =~= a);
        assert(b =~= Seq::<char>::empty());
    } else {
        let rest = b.drop_last();
        assert forall|i: int| 0 <= i < rest.len() implies !seps.contains(#[trigger] rest[i]) by {
            assert(rest[i] == b[i]);
        }
        lemma_split_behind(a, sep, rest, seps);
        assert(whole.drop_last() =~= a.push(sep) + rest);
        assert(whole.last() == b[b.len() - 1]);
        let head = split(a, seps).push(rest);
        assert(head.drop_last() =~= split(a, seps));
        assert(rest.push(b.last()) =~= b);
    }
}

/// Splitting undoes joining: parts without a separator in them, joined by one, are
/// the pieces of the result.
pub proof fn law_split_undoes_join(parts: Seq<Seq<char>>, sep: char, seps: Seq<char>)
    requires
        parts.len() > 0,
        seps.contains(sep),
        forall|k: int, i: int|
            0 <= k < parts.len() && 0 <= i < parts[k].len() ==> !seps.contains(
                #[trigger] parts[k][i],
            ),
    ensures
        split(join(parts, seq![sep]), seps) == parts,
    decreases parts.len(),
{
    if parts.len() == 1 {
        assert forall|i: int| 0 <= i < parts[0].len() implies !seps.contains(
            #[trigger] parts[0][i],
        ) by {}
        lemma_split_plain(parts[0], seps);
        assert(seq![parts[0]] =~= parts);
    } else {
        let rest = parts.drop_last();
        let last = parts.last();
        assert forall|k: int, i: int|
            0 <= k < rest.len() && 0 <= i < rest[k].len() implies !seps.contains(
            #[trigger] rest[k][i],
        ) by {
            assert(rest[k] == parts[k]);
            assert(!seps.contains(parts[k][i]));
        }
        law_split_undoes_join(rest, sep, seps);
        assert forall|i: int| 0 <= i < last.len() implies !seps.contains(#[trigger] last[i]) by {
            assert(!seps.contains(parts[parts.len() - 1][i]));
        }
        let head = join(rest, seq![sep]);
        lemma_split_behind(head, sep, last, seps);
        assert(head.push(sep) + last =~= join(parts, seq![sep]));
        assert(rest.push(last) =~= parts);
    }
}

/// A piece starts at the beginning or behind a separator, and has none in it.
pub proof fn lemma_piece_place(s: Seq<char>, seps: Seq<char>, k: int) -> (p: int)
    requires
        0 <= k < split(s, seps).len(),
    ensures
        0 <= p,
        p == 0 || seps.contains(s[p - 1]),
        p + split(s, seps)[k].len() <= s.len(),
        s.subrange(p, p + split(s, seps)[k].len()) == split(s, seps)[k],
        forall|i: int|
            0 <= i < split(s, seps)[k].len() ==> !seps.contains(#[trigger] split(s, seps)[k][i]),
        k == split(s, seps).len() - 1 ==> p + split(s, seps)[k].len() == s.len(),
    decreases s.len(),
{
    if s.len() == 0 {
        assert(s.subrange(0, 0) =~= Seq::<char>::empty());
        0
    } else {
        let rest = s.drop_last();
        let head = split(rest, seps);
        lemma_split_nonempty(rest, seps);
        let piece = split(s, seps)[k];
        if seps.contains(s.last()) {
            if k == head.len() {
                assert(s.subrange(s.len() as int, s.len() as int) =~= piece);
                assert(s[s.len() - 1] == s.last());
                s.len() as int
            } else {
                let p = lemma_piece_place(rest, seps, k);
                assert(s.subrange(p, p + piece.len()) =~= rest.subrange(p, p + piece.len()));
                p
            }
        } else {
            let p = lemma_piece_place(rest, seps, k);
            if k == head.len() - 1 {
                assert(piece == head.last().push(s.last()));
                assert(s.subrange(p, p + piece.len()) =~= piece);
                assert forall|i: int| 0 <= i < piece.len() implies !seps.contains(
                    #[trigger] piece[i],
                ) by {
                    if i < head.last().len() {
                        assert(piece[i] == head[k][i]);
                    }
                }
            } else {
                assert(s.subrange(p, p + piece.len()) =~= rest.subrange(p, p + piece.len()));
            }
            p
        }
    }
}

/// Where the text begins and behind each separator a piece starts, which goes up to
/// the next separator or the end.
pub proof fn lemma_place_has_piece(s: Seq<char>, seps: Seq<char>, p: int) -> (k: int)
    requires
        0 <= p <= s.len(),
        p == 0 || seps.contains(s[p - 1]),
    ensures
        0 <= k < split(s, seps).len(),
        p + split(s, seps)[k].len() <= s.len(),
        s.subrange(p, p + split(s, seps)[k].len()) == split(s, seps)[k],
        p + split(s, seps)[k].len() < s.len() ==> seps.contains(s[p + split(s, seps)[k].len()]),
        p + split(s, seps)[k].len() == s.len() <==> k == split(s, seps).len() - 1,
    decreases s.len(),
{
    if s.len() == 0 {
        assert(s.subrange(0, 0) =~= Seq::<char>::empty());
        0
    } else {
        let rest = s.drop_last();
        let head = split(rest, seps);
        lemma_split_nonempty(rest, seps);
        if p == s.len() {
            assert(seps.contains(s.last()));
            let k = head.len() as int;
            assert(s.subrange(p, p) =~= split(s, seps)[k]);
            k
        } else {
            let k = lemma_place_has_piece(rest, seps, p);
            let piece = split(s, seps)[k];
            if seps.contains(s.last()) {
                assert(piece == head[k]);
                assert(s.subrange(p, p + piece.len()) =~= rest.subrange(p, p + piece.len()));
                if p + piece.len() < rest.len() {
                    assert(rest[p + piece.len()] == s[p + piece.len()]);
                }
            } else if k == head.len() - 1 {
                assert(piece == head[k].push(s.last()));
                assert forall|i: int| 0 <= i < head[k].len() implies head[k][i] == s[p + i] by {
                    assert(head[k][i] == rest.subrange(p, p + head[k].len())[i]);
                }
                assert(s.subrange(p, p + piece.len()) =~= piece);
            } else {
                assert(piece == head[k]);
                assert(s.subrange(p, p + piece.len()) =~= rest.subrange(p, p + piece.len()));
                assert(rest[p + piece.len()] == s[p + piece.len()]);
            }
            k
        }
    }
}

/// A number read from its own decimal notation is that number.
pub proof fn law_decimal_is_read_back(n: nat, max: nat)
    ensures
        decimal(n).len() > 0,
        all_digits(decimal(n)),
        digits_value(decimal(n)) == n,
        n <= max ==> unsigned(decimal(n), max) == Some(n),
        n > max ==> unsigned(decimal(n), max) is None,
    decreases n,
{
    if n < 10 {
        let one = seq![digit_char(n)];
        assert(one.drop_last() =~= Seq::<char>::empty());
        assert(digits_value(Seq::<char>::empty()) == 0);
        assert(one.last() == digit_char(n));
    } else {
        law_decimal_is_read_back(n / 10, max);
        let head = decimal(n / 10);
        let whole = decimal(n);
        assert(whole.drop_last() =~= head);
        assert forall|i: int| 0 <= i < whole.len() implies is_digit(whole[i]) by {
            if i < head.len() {
                assert(is_digit(head[i]));
            }
        }
    }
    assert(is_digit(decimal(n)[0]));
}

/// A plus sign in front of a number does not count; anything else that is not a digit
/// makes it no number.
pub proof fn law_what_is_an_unsigned_number(s: Seq<char>, max: nat, i: int)
    ensures
        s.len() == 0 ==> unsigned(s, max) is None,
        0 <= i < s.len() && !('0' <= s[i] <= '9') && (i > 0 || s[i] != '+' || s.len() == 1)
            ==> unsigned(s, max) is None,
        s.len() > 0 && all_digits(s) ==> unsigned(s, max) == unsigned(seq!['+'] + s, max),
{
    if 0 <= i < s.len() && !('0' <= s[i] <= '9') {
        if s[0] == '+' {
            if i > 0 {
                assert(s.drop_first()[i - 1] == s[i]);
            }
        }
    }
    if s.len() > 0 && all_digits(s) {
        assert((seq!['+'] + s).drop_first() =~= s);
        assert(is_digit(s[0]));
    }
}

/// Lines are what stands between line feeds: joined by line feeds, texts without them
/// are read back, a carriage return before a feed and a feed at the end not counting.
pub proof fn law_lines_are_read_back(list: Seq<Seq<char>>, ended: bool)
    requires
        list.len() > 0,
        forall|k: int, i: int|
            0 <= k < list.len() && 0 <= i < list[k].len() ==> #[trigger] list[k][i] != '\n'
                && list[k][i] != '\r',
        list.last().len() > 0,
    ensures
        lines(
            if ended {
                join(list, seq!['\n']).push('\n')
            } else {
                join(list, seq!['\n'])
            },
        ) == list,
{
    let feed = seq!['\n'];
    assert(feed.contains('\n')) by {
        assert(feed[0] == '\n');
    }
    assert forall|k: int, i: int| 0 <= k < list.len() && 0 <= i < list[k].len() implies !feed.contains(
        #[trigger] list[k][i],
    ) by {
        if feed.contains(list[k][i]) {
            let m = choose|m: int| 0 <= m < feed.len() && feed[m] == list[k][i];
        }
    }
    assert forall|k: int| 0 <= k < list.len() implies #[trigger] without_cr(list[k]) == list[k] by {
        if list[k].len() > 0 {
            assert(list[k][list[k].len() - 1] != '\r');
        }
    }
    law_split_undoes_join(list, '\n', feed);
    let whole = join(list, feed);
    if ended {
        assert(whole.push('\n').drop_last() =~= whole);
        let pieces = split(whole.push('\n'), feed);
        assert(pieces == list.push(Seq::<char>::empty()));
        assert(lines(whole.push('\n')) =~= list);
    } else {
        assert(lines(whole) =~= list);
    }
}

/// Padding adds blanks on the right up to the width, and cuts nothing.
pub proof fn law_padding(s: Seq<char>, width: nat)
    ensures
        padded(s, width).len() >= s.len(),
        padded(s, width).len() >= width,
        s.len() >= width ==> padded(s, width) == s,
        padded(s, width).take(s.len() as int) == s,
        forall|i: int| s.len() <= i < padded(s, width).len() ==> #[trigger] padded(s, width)[i] == ' ',
        s.len() < width ==> padded(s, width).len() == width,
{
    assert(padded(s, width).take(s.len() as int) =~= s);
}

/// Parts are joined in order, with the separator between each two and nowhere else.
pub proof fn law_join(parts: Seq<Seq<char>>, part: Seq<char>, sep: Seq<char>)
    ensures
        join(Seq::empty(), sep).len() == 0,
        join(seq![part], sep) == part,
        parts.len() > 0 ==> join(parts.push(part), sep) == join(parts, sep) + sep + part,
{
    assert(parts.push(part).drop_last() =~= parts);
}

/// White space: the blanks and breaks of ASCII, and no letter, digit or punctuation
/// of it.
pub proof fn law_white_space(c: char)
    requires
        (c as int) < 0x80,
    ensures
        is_space(c) <==> c == ' ' || 9 <= c as int <= 13,
{
}

/// Words are what stands between white space: each further word behind white space
/// adds itself, and white space at the end adds nothing.
pub proof fn law_words(s: Seq<char>, gap: char, word: Seq<char>)
    requires
        is_space(gap),
        word.len() > 0,
        forall|i: int| 0 <= i < word.len() ==> !is_space(#[trigger] word[i]),
    ensures
        words(s.push(gap)) == words(s),
        words(s.push(gap) + word) == words(s).push(word),
        words(word) == seq![word],
        words(Seq::empty()).len() == 0,
{
    lemma_space_split_nonempty(s);
    assert(s.push(gap).drop_last() =~= s);
    let head = space_split(s);
    assert(head.push(Seq::<char>::empty()).drop_last() =~= head);
    lemma_space_split_behind(s, gap, word);
    assert(head.push(word).drop_last() =~= head);
    let none = Seq::<char>::empty();
    assert(space_split(none) == seq![none]);
    assert(seq![none].drop_last() =~= Seq::<Seq<char>>::empty());
    assert(nonempty(Seq::<Seq<char>>::empty()) =~= Seq::<Seq<char>>::empty());
    assert(words(none) =~= Seq::<Seq<char>>::empty());
    lemma_space_split_plain(word);
    assert(seq![word].drop_last() =~= Seq::<Seq<char>>::empty());
    assert(words(word) =~= seq![word]);
}

proof fn lemma_space_split_nonempty(s: Seq<char>)
    ensures
        space_split(s).len() > 0,
    decreases s.len(),
{
    if s.len() > 0 {
        lemma_space_split_nonempty(s.drop_last());
    }
}

proof fn lemma_space_split_plain(s: Seq<char>)
    requires
        forall|i: int| 0 <= i < s.len() ==> !is_space(#[trigger] s[i]),
    ensures
        space_split(s) == seq![s],
    decreases s.len(),
{
    if s.len() > 0 {
        let rest = s.drop_last();
        assert forall|i: int| 0 <= i < rest.len() implies !is_space(#[trigger] rest[i]) by {
            assert(rest[i] == s[i]);
        }
        lemma_space_split_plain(rest);
        assert(!is_space(s[s.len() - 1]));
        assert(rest.push(s.last()) =~= s);
        assert(seq![rest].drop_last().push(rest.push(s.last())) =~= seq![s]);
    } else {
        assert(s =~= Seq::<char>::empty());
    }
}

proof fn lemma_space_split_behind(a: Seq<char>, gap: char, b: Seq<char>)
    requires
        is_space(gap),
        forall|i: int| 0 <= i < b.len() ==> !is_space(#[trigger] b[i]),
    ensures
        space_split(a.push(gap) + b) == space_split(a).push(b),
    decreases b.len(),
{
    let whole = a.push(gap) + b;
    if b.len() == 0 {
        assert(whole =~= a.push(gap));
        assert(whole.drop_last() =~= a);
        assert(b =~= Seq::<char>::empty());
    } else {
        let rest = b.drop_last();
        assert forall|i: int| 0 <= i < rest.len() implies !is_space(#[trigger] rest[i]) by {
            assert(rest[i] == b[i]);
        }
        lemma_space_split_behind(a, gap, rest);
        assert(whole.drop_last() =~= a.push(gap) + rest);
        assert(whole.last() == b[b.len() - 1]);
        let head = space_split(a).push(rest);
        assert(head.drop_last() =~= space_split(a));
        assert(rest.push(b.last()) =~= b);
    }
}

/// A text starts with another where they agree at each of its places, and contains it
/// where they do so from some place on.
pub proof fn law_starting_and_containing(s: Seq<char>, p: Seq<char>)
    ensures
        has_prefix(s, p) <==> p.len() <= s.len() && forall|i: int|
            0 <= i < p.len() ==> #[trigger] s[i] == p[i],
        contains(s, p) <==> exists|k: int|
            0 <= k && k + p.len() <= s.len() && #[trigger] s.subrange(k, k + p.len()) == p,
{
    if p.len() <= s.len() {
        if has_prefix(s, p) {
            assert forall|i: int| 0 <= i < p.len() implies #[trigger] s[i] == p[i] by {
                assert(s.take(p.len() as int)[i] == s[i]);
            }
        }
        if forall|i: int| 0 <= i < p.len() ==> #[trigger] s[i] == p[i] {
            assert(s.take(p.len() as int) =~= p);
        }
    }
    if contains(s, p) {
        let k = choose|k: int| occurs_at(s, p, k);
        assert(s.subrange(k, k + p.len()) == p);
    }
    if exists|k: int| 0 <= k && k + p.len() <= s.len() && #[trigger] s.subrange(k, k + p.len()) == p {
        let k = choose|k: int|
            0 <= k && k + p.len() <= s.len() && #[trigger] s.subrange(k, k + p.len()) == p;
        assert(occurs_at(s, p, k));
    }
}

pub proof fn lemma_join_holds_parts(parts: Seq<Seq<char>>, sep: Seq<char>, i: int)
    requires
        0 <= i < parts.len(),
    ensures
        contains(join(parts, sep), parts[i]),
    decreases parts.len(),
{
    let whole = join(parts, sep);
    if parts.len() == 1 {
        assert(whole.subrange(0, 0 + parts[0].len() as int) =~= parts[0]);
        assert(occurs_at(whole, parts[0], 0));
    } else if i == parts.len() - 1 {
        let at = whole.len() - parts[i].len();
        assert(whole.subrange(at, at + parts[i].len()) =~= parts[i]);
        assert(occurs_at(whole, parts[i], at));
    } else {
        let head = join(parts.drop_last(), sep);
        lemma_join_holds_parts(parts.drop_last(), sep, i);
        let at = choose|at: int| occurs_at(head, parts[i], at);
        assert(whole.subrange(at, at + parts[i].len()) =~= head.subrange(
            at,
            at + parts[i].len(),
        ));
        assert(occurs_at(whole, parts[i], at));
    }
}

/// A joined text starts with its first part.
pub proof fn lemma_join_starts(parts: Seq<Seq<char>>, sep: Seq<char>)
    requires
        parts.len() > 0,
    ensures
        has_prefix(join(parts, sep), parts[0]),
    decreases parts.len(),
{
    let whole = join(parts, sep);
    if parts.len() == 1 {
        assert(whole.take(parts[0].len() as int) =~= parts[0]);
    } else {
        let rest = parts.drop_last();
        lemma_join_starts(rest, sep);
        assert(whole.take(parts[0].len() as int) =~= join(rest, sep).take(parts[0].len() as int));
    }
}

/// A text that stands between two others occurs in the whole.
pub proof fn lemma_part_occurs(whole: Seq<char>, before: Seq<char>, part: Seq<char>, after: Seq<char>)
    requires
        whole =~= before + part + after,
    ensures
        contains(whole, part),
{
    let at = before.len() as int;
    assert(whole.subrange(at, at + part.len()) =~= part);
    assert(occurs_at(whole, part, at));
}

} // verus!
