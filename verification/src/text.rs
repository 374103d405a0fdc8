//! Text as sequences of characters: the small string functions that the rest
//! of the library is written with, each with an exact contract.

use vstd::prelude::*;
use vstd::string::*;
use vstd::utf8::*;

verus! {

/// `String::push` appends one character to the end of a string.
pub assume_specification[ String::push ](s: &mut String, c: char)
    ensures
        final(s)@ == old(s)@.push(c),
;

/// The texts that a sequence of strings holds.
pub open spec fn texts(v: Seq<String>) -> Seq<Seq<char>> {
    v.map_values(|s: String| s@)
}

/// The text that an optional string holds.
pub open spec fn opt_text(o: Option<String>) -> Option<Seq<char>> {
    match o {
        Some(s) => Some(s@),
        None => None,
    }
}

/// Appending a string appends its text.
pub broadcast proof fn lemma_texts_push(v: Seq<String>, s: String)
    ensures
        #[trigger] texts(v.push(s)) == texts(v).push(s@),
{
    assert(texts(v.push(s)) =~= texts(v).push(s@));
}

/// The characters of `s`, for indexed reading.
pub fn chars_of(s: &str) -> (v: Vec<char>)
    ensures
        v@ == s@,
{
    let mut v: Vec<char> = Vec::new();
    for c in it: s.chars()
        invariant
            v@ == it.seq().take(it.index() as int),
            it.seq() == s@,
    {
        v.push(c);
        assert(v@ =~= it.seq().take(it.index() + 1));
    }
    assert(v@ =~= s@);
    v
}

/// The character at index `i`.
pub fn char_at(v: &[char], i: usize) -> (c: char)
    requires
        i < v@.len(),
    ensures
        c == v@[i as int],
{
    v[i]
}

/// The string that holds the characters `from..to` of `v`.
pub fn string_of(v: &[char], from: usize, to: usize) -> (s: String)
    requires
        from <= to <= v@.len(),
    ensures
        s@ == v@.subrange(from as int, to as int),
{
    let mut s = String::new();
    let mut i: usize = from;
    while i < to
        invariant
            from <= i <= to <= v@.len(),
            s@ == v@.subrange(from as int, i as int),
        decreases to - i,
    {
        s.push(v[i]);
        i += 1;
        assert(s@ =~= v@.subrange(from as int, i as int));
    }
    s
}

/// Whether two texts are the same.
pub fn same_text(a: &str, b: &str) -> (r: bool)
    ensures
        r == (a@ == b@),
{
    proof {
        encode_utf8_decode_utf8(a@);
        encode_utf8_decode_utf8(b@);
    }
    let x: &[u8] = a.as_bytes();
    let y: &[u8] = b.as_bytes();
    if x.len() != y.len() {
        return false;
    }
    let mut i: usize = 0;
    while i < x.len()
        invariant
            i <= x@.len() == y@.len(),
            x@ == a.spec_bytes(),
            y@ == b.spec_bytes(),
            forall|j: int| 0 <= j < i ==> x@[j] == y@[j],
        decreases x@.len() - i,
    {
        if x[i] != y[i] {
            return false;
        }
        i += 1;
    }
    assert(x@ =~= y@);
    true
}

/// Whether `s` begins with `prefix`.
pub fn begins_with(s: &str, prefix: &str) -> (r: bool)
    ensures
        r == prefix@.is_prefix_of(s@),
{
    let v: Vec<char> = chars_of(s);
    let p: Vec<char> = chars_of(prefix);
    if p.len() > v.len() {
        return false;
    }
    let mut i: usize = 0;
    while i < p.len()
        invariant
            i <= p@.len() <= v@.len(),
            p@ == prefix@,
            v@ == s@,
            forall|j: int| 0 <= j < i ==> p@[j] == v@[j],
        decreases p@.len() - i,
    {
        if p[i] != v[i] {
            assert(p@[i as int] != v@.subrange(0, p@.len() as int)[i as int]);
            return false;
        }
        i += 1;
    }
    assert(p@ =~= v@.subrange(0, p@.len() as int));
    true
}

/// Whether `s` ends with `suffix`.
pub fn ends_with(s: &str, suffix: &str) -> (r: bool)
    ensures
        r == suffix@.is_suffix_of(s@),
{
    let v: Vec<char> = chars_of(s);
    let p: Vec<char> = chars_of(suffix);
    if p.len() > v.len() {
        return false;
    }
    let from: usize = v.len() - p.len();
    let mut i: usize = 0;
    while i < p.len()
        invariant
            i <= p@.len() <= v@.len(),
            from == v@.len() - p@.len(),
            p@ == suffix@,
            v@ == s@,
            forall|j: int| 0 <= j < i ==> p@[j] == v@[from + j],
        decreases p@.len() - i,
    {
        assert(from + i < v.len());
        if p[i] != v[from + i] {
            assert(p@[i as int] != v@.subrange(from as int, v@.len() as int)[i as int]);
            return false;
        }
        i += 1;
    }
    assert(p@ =~= v@.subrange(from as int, v@.len() as int));
    true
}

/// The order of texts: by code point at the first place where they differ, a
/// proper prefix before what it begins.
pub open spec fn text_lt(a: Seq<char>, b: Seq<char>) -> bool
    decreases b.len(),
{
    if b.len() == 0 {
        false
    } else if a.len() == 0 {
        true
    } else if a[0] == b[0] {
        text_lt(a.drop_first(), b.drop_first())
    } else {
        (a[0] as int) < (b[0] as int)
    }
}

/// No text comes before itself.
pub proof fn lemma_text_lt_irreflexive(a: Seq<char>)
    ensures
        !text_lt(a, a),
    decreases a.len(),
{
    if a.len() > 0 {
        lemma_text_lt_irreflexive(a.drop_first());
    }
}

/// The order of texts is transitive.
pub proof fn lemma_text_lt_transitive(a: Seq<char>, b: Seq<char>, c: Seq<char>)
    requires
        text_lt(a, b),
        text_lt(b, c),
    ensures
        text_lt(a, c),
    decreases c.len(),
{
    if a.len() > 0 && a[0] == b[0] && b[0] == c[0] {
        lemma_text_lt_transitive(a.drop_first(), b.drop_first(), c.drop_first());
    }
}

/// Of two different texts one comes before the other.
pub proof fn lemma_text_lt_total(a: Seq<char>, b: Seq<char>)
    ensures
        a == b || text_lt(a, b) || text_lt(b, a),
    decreases b.len(),
{
    if a.len() == 0 || b.len() == 0 {
        if a.len() == 0 && b.len() == 0 {
            assert(a =~= b);
        }
    } else if a[0] == b[0] {
        lemma_text_lt_total(a.drop_first(), b.drop_first());
        if a.drop_first() == b.drop_first() {
            assert(a =~= seq![a[0]] + a.drop_first());
            assert(b =~= seq![b[0]] + b.drop_first());
        }
    }
}

/// The code point of a character.
fn code_point(c: char) -> (n: u32)
    ensures
        n as int == c as int,
{
    c as u32
}

/// Whether `a` comes before `b` in the order of texts.
pub fn text_before(a: &str, b: &str) -> (r: bool)
    ensures
        r == text_lt(a@, b@),
{
    let x: Vec<char> = chars_of(a);
    let y: Vec<char> = chars_of(b);
    let mut i: usize = 0;
    proof {
        assert(x@.skip(0) =~= x@);
        assert(y@.skip(0) =~= y@);
    }
    while i < x.len() && i < y.len()
        invariant
            i <= x@.len(),
            i <= y@.len(),
            x@ == a@,
            y@ == b@,
            text_lt(x@, y@) == text_lt(x@.skip(i as int), y@.skip(i as int)),
        decreases x@.len() - i,
    {
        if x[i] != y[i] {
            return code_point(x[i]) < code_point(y[i]);
        }
        proof {
            assert(x@.skip(i as int).drop_first() =~= x@.skip(i + 1));
            assert(y@.skip(i as int).drop_first() =~= y@.skip(i + 1));
        }
        i += 1;
    }
    i < y.len()
}

/// The decimal digit for a number below ten.
pub open spec fn digit(d: nat) -> char {
    ((48 + d) as u8) as char
}

/// A number in decimal, without leading zeros.
pub open spec fn decimal(n: nat) -> Seq<char>
    decreases n,
{
    if n < 10 {
        seq![digit(n)]
    } else {
        decimal(n / 10).push(digit(n % 10))
    }
}

/// Appends `n` in decimal.
pub fn push_decimal(out: &mut String, n: u64)
    ensures
        final(out)@ == old(out)@ + decimal(n as nat),
    decreases n,
{
    if n >= 10 {
        push_decimal(out, n / 10);
    }
    let d: u8 = (n % 10) as u8;
    out.push((48u8 + d) as char);
    proof {
        assert(out@ =~= old(out)@ + decimal(n as nat));
    }
}

/// The number `n` in decimal.
pub fn decimal_text(n: u64) -> (s: String)
    ensures
        s@ == decimal(n as nat),
{
    let mut s = String::new();
    push_decimal(&mut s, n);
    assert(s@ =~= decimal(n as nat));
    s
}

/// The texts one after the other, with `sep` between neighbours.
pub open spec fn join(parts: Seq<Seq<char>>, sep: Seq<char>) -> Seq<char>
    decreases parts.len(),
{
    if parts.len() == 0 {
        seq![]
    } else if parts.len() == 1 {
        parts[0]
    } else {
        join(parts.drop_last(), sep) + sep + parts.last()
    }
}

/// Joins strings with `sep` between neighbours.
pub fn join_texts(parts: &[String], sep: &str) -> (s: String)
    ensures
        s@ == join(texts(parts@), sep@),
{
    let mut s = String::new();
    let mut i: usize = 0;
    assert(texts(parts@).take(0) =~= Seq::<Seq<char>>::empty());
    while i < parts.len()
        invariant
            i <= parts@.len(),
            s@ == join(texts(parts@).take(i as int), sep@),
        decreases parts@.len() - i,
    {
        let ghost before = texts(parts@).take(i as int);
        let ghost after = texts(parts@).take(i + 1);
        assert(after.drop_last() =~= before);
        assert(after.last() == parts@[i as int]@);
        if i > 0 {
            s.append(sep);
        }
        s.append(parts[i].as_str());
        assert(s@ =~= join(after, sep@));
        i += 1;
    }
    assert(texts(parts@).take(parts@.len() as int) =~= texts(parts@));
    s
}

/// Owned copies of the given texts.
pub fn strs(args: &[&str]) -> (v: Vec<String>)
    ensures
        texts(v@) == args@.map_values(|s: &str| s@),
{
    let mut v: Vec<String> = Vec::new();
    let mut i: usize = 0;
    while i < args.len()
        invariant
            i <= args@.len(),
            v@.len() == i,
            forall|j: int| 0 <= j < i ==> (#[trigger] v@[j])@ == args@[j]@,
        decreases args@.len() - i,
    {
        v.push(args[i].to_owned());
        i += 1;
    }
    assert(texts(v@) =~= args@.map_values(|s: &str| s@));
    v
}

/// Copies of the given strings.
pub fn copy_texts(v: &[String]) -> (r: Vec<String>)
    ensures
        texts(r@) == texts(v@),
{
    let mut r: Vec<String> = Vec::new();
    let mut i: usize = 0;
    while i < v.len()
        invariant
            i <= v@.len(),
            r@.len() == i,
            forall|j: int| 0 <= j < i ==> (#[trigger] r@[j])@ == v@[j]@,
        decreases v@.len() - i,
    {
        r.push(v[i].clone());
        i += 1;
    }
    assert(texts(r@) =~= texts(v@));
    r
}

/// A copy of an optional string.
pub fn copy_opt_text(o: &Option<String>) -> (r: Option<String>)
    ensures
        opt_text(r) == opt_text(*o),
{
    match o {
        Some(s) => Some(s.clone()),
        None => None,
    }
}

/// A line without the carriage return that may end it.
pub open spec fn without_cr(line: Seq<char>) -> Seq<char> {
    if line.len() > 0 && line.last() == '\r' {
        line.drop_last()
    } else {
        line
    }
}

/// What reading `s` from left to right has found: the lines that a line feed
/// has ended, and what stands behind the last line feed.
pub open spec fn line_split(s: Seq<char>) -> (Seq<Seq<char>>, Seq<char>)
    decreases s.len(),
{
    if s.len() == 0 {
        (seq![], seq![])
    } else {
        let (ended, open) = line_split(s.drop_last());
        if s.last() == '\n' {
            (ended.push(without_cr(open)), seq![])
        } else {
            (ended, open.push(s.last()))
        }
    }
}

/// The lines of `s`: each ends with a line feed, with or without a carriage
/// return before it; the last one may lack the ending.
pub open spec fn lines(s: Seq<char>) -> Seq<Seq<char>> {
    let (ended, open) = line_split(s);
    if open.len() == 0 {
        ended
    } else {
        ended.push(open)
    }
}

/// The lines of `s`.
pub fn lines_of(s: &str) -> (v: Vec<String>)
    ensures
        texts(v@) == lines(s@),
{
    broadcast use lemma_texts_push;

    let chars: Vec<char> = chars_of(s);
    let mut v: Vec<String> = Vec::new();
    let mut start: usize = 0;
    let mut i: usize = 0;
    assert(chars@.take(0) =~= Seq::<char>::empty());
    assert(texts(v@) =~= Seq::<Seq<char>>::empty());
    while i < chars.len()
        invariant
            start <= i <= chars@.len(),
            (texts(v@), chars@.subrange(start as int, i as int)) == line_split(
                chars@.take(i as int),
            ),
        decreases chars@.len() - i,
    {
        assert(chars@.take(i + 1).drop_last() =~= chars@.take(i as int));
        if chars[i] == '\n' {
            let mut end: usize = i;
            if start < i && chars[i - 1] == '\r' {
                end = i - 1;
            }
            assert(chars@.subrange(start as int, end as int) =~= without_cr(
                chars@.subrange(start as int, i as int),
            ));
            v.push(string_of(chars.as_slice(), start, end));
            start = i + 1;
            assert(chars@.subrange(start as int, i + 1) =~= Seq::<char>::empty());
        } else {
            assert(chars@.subrange(start as int, i + 1) =~= chars@.subrange(
                start as int,
                i as int,
            ).push(chars@[i as int]));
        }
        i += 1;
    }
    assert(chars@.take(chars@.len() as int) =~= chars@);
    if start < chars.len() {
        v.push(string_of(chars.as_slice(), start, chars.len()));
    }
    v
}

/// The characters that count as white space: the code points with the Unicode
/// property `White_Space`.
pub open spec fn white_space(c: char) -> bool {
    let n = c as u32;
    ||| 0x9 <= n <= 0xd
    ||| n == 0x20
    ||| n == 0x85
    ||| n == 0xa0
    ||| n == 0x1680
    ||| 0x2000 <= n <= 0x200a
    ||| n == 0x2028
    ||| n == 0x2029
    ||| n == 0x202f
    ||| n == 0x205f
    ||| n == 0x3000
}

/// Whether `c` is white space.
pub fn is_white_space(c: char) -> (r: bool)
    ensures
        r == white_space(c),
{
    let n: u32 = c as u32;
    (0x9 <= n && n <= 0xd) || n == 0x20 || n == 0x85 || n == 0xa0 || n == 0x1680 || (0x2000 <= n
        && n <= 0x200a) || n == 0x2028 || n == 0x2029 || n == 0x202f || n == 0x205f || n == 0x3000
}

/// Whether a text holds nothing but white space.
pub open spec fn blank(s: Seq<char>) -> bool {
    forall|i: int| 0 <= i < s.len() ==> white_space(#[trigger] s[i])
}

/// Whether `s` holds nothing but white space.
pub fn is_blank(s: &str) -> (r: bool)
    ensures
        r == blank(s@),
{
    let v: Vec<char> = chars_of(s);
    let mut i: usize = 0;
    while i < v.len()
        invariant
            i <= v@.len(),
            v@ == s@,
            forall|j: int| 0 <= j < i ==> white_space(#[trigger] v@[j]),
        decreases v@.len() - i,
    {
        if !is_white_space(v[i]) {
            return false;
        }
        i += 1;
    }
    true
}

/// A text without the characters at its start that `p` holds of.
pub open spec fn strip_start(s: Seq<char>, p: spec_fn(char) -> bool) -> Seq<char>
    decreases s.len(),
{
    if s.len() > 0 && p(s[0]) {
        strip_start(s.drop_first(), p)
    } else {
        s
    }
}

/// A text without the characters at its end that `p` holds of.
pub open spec fn strip_end(s: Seq<char>, p: spec_fn(char) -> bool) -> Seq<char>
    decreases s.len(),
{
    if s.len() > 0 && p(s.last()) {
        strip_end(s.drop_last(), p)
    } else {
        s
    }
}

/// A text without white space at either end.
pub open spec fn trimmed(s: Seq<char>) -> Seq<char> {
    strip_end(strip_start(s, |c: char| white_space(c)), |c: char| white_space(c))
}

/// `s` without white space at either end.
pub fn trim_text(s: &str) -> (r: String)
    ensures
        r@ == trimmed(s@),
{
    let ghost p = |c: char| white_space(c);
    let v: Vec<char> = chars_of(s);
    let mut from: usize = 0;
    assert(v@.skip(0) =~= v@);
    while from < v.len() && is_white_space(v[from])
        invariant
            from <= v@.len(),
            p == (|c: char| white_space(c)),
            strip_start(v@, p) == strip_start(v@.skip(from as int), p),
        decreases v@.len() - from,
    {
        assert(v@.skip(from as int).drop_first() =~= v@.skip(from + 1));
        from += 1;
    }
    let ghost rest = v@.skip(from as int);
    assert(strip_start(v@, p) == rest);
    let mut to: usize = v.len();
    assert(v@.subrange(from as int, to as int) =~= rest);
    while from < to && is_white_space(v[to - 1])
        invariant
            from <= to <= v@.len(),
            p == (|c: char| white_space(c)),
            strip_end(rest, p) == strip_end(v@.subrange(from as int, to as int), p),
        decreases to,
    {
        assert(v@.subrange(from as int, to as int).drop_last() =~= v@.subrange(
            from as int,
            to - 1,
        ));
        to -= 1;
    }
    string_of(v.as_slice(), from, to)
}

/// A path without the slashes at its end.
pub open spec fn without_end_slashes(s: Seq<char>) -> Seq<char> {
    strip_end(s, |c: char| c == '/')
}

/// A path without the slashes at its start.
pub open spec fn without_start_slashes(s: Seq<char>) -> Seq<char> {
    strip_start(s, |c: char| c == '/')
}

/// `s` without the slashes at its end.
pub fn trim_end_slashes(s: &str) -> (r: String)
    ensures
        r@ == without_end_slashes(s@),
{
    let ghost p = |c: char| c == '/';
    let v: Vec<char> = chars_of(s);
    let mut to: usize = v.len();
    assert(v@.take(to as int) =~= v@);
    while 0 < to && v[to - 1] == '/'
        invariant
            to <= v@.len(),
            p == (|c: char| c == '/'),
            strip_end(v@, p) == strip_end(v@.take(to as int), p),
        decreases to,
    {
        assert(v@.take(to as int).drop_last() =~= v@.take(to - 1));
        to -= 1;
    }
    assert(v@.subrange(0, to as int) =~= v@.take(to as int));
    string_of(v.as_slice(), 0, to)
}

/// `s` without the slashes at its start.
pub fn trim_start_slashes(s: &str) -> (r: String)
    ensures
        r@ == without_start_slashes(s@),
{
    let ghost p = |c: char| c == '/';
    let v: Vec<char> = chars_of(s);
    let mut from: usize = 0;
    assert(v@.skip(0) =~= v@);
    while from < v.len() && v[from] == '/'
        invariant
            from <= v@.len(),
            p == (|c: char| c == '/'),
            strip_start(v@, p) == strip_start(v@.skip(from as int), p),
        decreases v@.len() - from,
    {
        assert(v@.skip(from as int).drop_first() =~= v@.skip(from + 1));
        from += 1;
    }
    assert(v@.subrange(from as int, v@.len() as int) =~= v@.skip(from as int));
    string_of(v.as_slice(), from, v.len())
}

// ---------------------------------------------------------------------------
// What holds of these texts

/// The number that a text of decimal digits spells.
pub open spec fn decimal_value(s: Seq<char>) -> int
    decreases s.len(),
{
    if s.len() == 0 {
        0
    } else {
        10 * decimal_value(s.drop_last()) + (s.last() as int - '0' as int)
    }
}

/// A number in decimal is made of digits, does not begin with a zero unless it
/// is zero, and reads back as the number.
pub proof fn law_decimal_reads_back(n: nat)
    ensures
        decimal_value(decimal(n)) == n,
        decimal(n).len() > 0,
        n > 0 ==> decimal(n)[0] != '0',
        n == 0 ==> decimal(n) == seq!['0'],
        forall|i: int|
            0 <= i < decimal(n).len() ==> '0' as int <= (#[trigger] decimal(n)[i]) as int <= '9' as int,
    decreases n,
{
    if n < 10 {
        assert(decimal(n).drop_last() =~= Seq::<char>::empty());
        assert(decimal_value(Seq::<char>::empty()) == 0);
        assert(decimal(n).last() as int == 48 + n);
    } else {
        law_decimal_reads_back(n / 10);
        assert(decimal(n).drop_last() =~= decimal(n / 10));
        assert(decimal(n).last() as int == 48 + n % 10);
        assert(decimal(n)[0] == decimal(n / 10)[0]);
        assert forall|i: int| 0 <= i < decimal(n).len() implies '0' as int <= (
        #[trigger] decimal(n)[i]) as int <= '9' as int by {
            if i < decimal(n).len() - 1 {
                assert(decimal(n)[i] == decimal(n / 10)[i]);
            }
        }
    }
}

/// Joining nothing gives nothing, joining one text gives it, and joining two
/// lists is joining what each of them joins to.
pub proof fn law_join_of_lists(a: Seq<Seq<char>>, b: Seq<Seq<char>>, x: Seq<char>, sep: Seq<char>)
    ensures
        join(Seq::empty(), sep) == Seq::<char>::empty(),
        join(seq![x], sep) == x,
        a.len() > 0 && b.len() > 0 ==> join(a + b, sep) == join(a, sep) + sep + join(b, sep),
    decreases b.len(),
{
    if a.len() > 0 && b.len() > 0 {
        let all = a + b;
        assert(all.drop_last() =~= a + b.drop_last());
        assert(all.last() == b.last());
        if b.len() == 1 {
            assert(all.drop_last() =~= a);
            assert(join(b, sep) == b[0]);
        } else {
            law_join_of_lists(a, b.drop_last(), x, sep);
            assert(join(all, sep) =~= join(a, sep) + sep + join(b, sep));
        }
    }
}

proof fn lemma_open_line(a: Seq<char>)
    requires
        !a.contains('\n'),
    ensures
        line_split(a) == (Seq::<Seq<char>>::empty(), a),
    decreases a.len(),
{
    if a.len() > 0 {
        let front = a.drop_last();
        assert forall|i: int| 0 <= i < front.len() implies front[i] != '\n' by {
            assert(front[i] == a[i]);
            assert(a.contains(a[i]));
        }
        lemma_open_line(front);
        assert(a.contains(a.last()));
        assert(front.push(a.last()) =~= a);
    } else {
        assert(a =~= Seq::<char>::empty());
    }
}

proof fn lemma_split_behind_end(x: Seq<char>, y: Seq<char>)
    requires
        line_split(x).1.len() == 0,
    ensures
        line_split(x + y).0 == line_split(x).0 + line_split(y).0,
        line_split(x + y).1 == line_split(y).1,
    decreases y.len(),
{
    if y.len() == 0 {
        assert(x + y =~= x);
        assert(line_split(x).1 =~= Seq::<char>::empty());
        assert(line_split(x).0 + Seq::<Seq<char>>::empty() =~= line_split(x).0);
    } else {
        lemma_split_behind_end(x, y.drop_last());
        assert((x + y).drop_last() =~= x + y.drop_last());
        assert((x + y).last() == y.last());
        assert(line_split(x + y).0 =~= line_split(x).0 + line_split(y).0);
    }
}

/// The first line of a text is what stands before its first line feed, without
/// a carriage return at its end; the other lines are those of the rest. A text
/// without a line feed is one line, unless it is empty.
pub proof fn law_lines_one_by_one(a: Seq<char>, rest: Seq<char>)
    requires
        !a.contains('\n'),
    ensures
        lines(a) == if a.len() == 0 {
            Seq::<Seq<char>>::empty()
        } else {
            seq![a]
        },
        a.len() == 0 || a.last() != '\r' ==> lines(a.push('\n') + rest) == seq![a] + lines(rest),
        lines(a.push('\r').push('\n') + rest) == seq![a] + lines(rest),
{
    let cr = a.push('\r');
    assert forall|i: int| 0 <= i < cr.len() implies cr[i] != '\n' by {
        if i < a.len() {
            assert(a.contains(a[i]));
        }
    }
    lemma_open_line(a);
    lemma_open_line(cr);
    assert(lines(a) =~= if a.len() == 0 {
        Seq::<Seq<char>>::empty()
    } else {
        seq![a]
    });
    let x = a.push('\n');
    let y = cr.push('\n');
    assert(x.drop_last() =~= a);
    assert(y.drop_last() =~= cr);
    assert(cr.drop_last() =~= a);
    lemma_split_behind_end(x, rest);
    lemma_split_behind_end(y, rest);
    if a.len() == 0 || a.last() != '\r' {
        assert(line_split(x).0 =~= seq![a]);
        assert(lines(x + rest) =~= seq![a] + lines(rest));
    }
    assert(line_split(y).0 =~= seq![a]);
    assert(lines(y + rest) =~= seq![a] + lines(rest));
}

proof fn lemma_strip_start(s: Seq<char>, p: spec_fn(char) -> bool) -> (n: int)
    ensures
        0 <= n <= s.len(),
        strip_start(s, p) == s.skip(n),
        forall|k: int| 0 <= k < n ==> p(#[trigger] s[k]),
        n < s.len() ==> !p(s[n]),
    decreases s.len(),
{
    if s.len() > 0 && p(s[0]) {
        let rest = s.drop_first();
        let m = lemma_strip_start(rest, p);
        assert(rest.skip(m) =~= s.skip(m + 1));
        assert forall|k: int| 0 <= k < m + 1 implies p(#[trigger] s[k]) by {
            if k > 0 {
                assert(rest[k - 1] == s[k]);
            }
        }
        m + 1
    } else {
        assert(s.skip(0) =~= s);
        0
    }
}

proof fn lemma_strip_end(s: Seq<char>, p: spec_fn(char) -> bool) -> (n: int)
    ensures
        0 <= n <= s.len(),
        strip_end(s, p) == s.take(n),
        forall|k: int| n <= k < s.len() ==> p(#[trigger] s[k]),
        n > 0 ==> !p(s[n - 1]),
    decreases s.len(),
{
    if s.len() > 0 && p(s.last()) {
        let rest = s.drop_last();
        let m = lemma_strip_end(rest, p);
        assert(rest.take(m) =~= s.take(m));
        assert forall|k: int| m <= k < s.len() implies p(#[trigger] s[k]) by {
            if k < s.len() - 1 {
                assert(rest[k] == s[k]);
            }
        }
        m
    } else {
        assert(s.take(s.len() as int) =~= s);
        s.len() as int
    }
}

/// Trimming takes away all white space at either end, and nothing else.
pub proof fn law_trimmed_is_the_middle(s: Seq<char>) -> (r: (int, int))
    ensures
        0 <= r.0 <= r.1 <= s.len(),
        trimmed(s) == s.subrange(r.0, r.1),
        forall|k: int| 0 <= k < r.0 || r.1 <= k < s.len() ==> white_space(#[trigger] s[k]),
        r.0 < r.1 ==> !white_space(s[r.0]) && !white_space(s[r.1 - 1]),
{
    let p = |c: char| white_space(c);
    let from = lemma_strip_start(s, p);
    let rest = s.skip(from);
    let n = lemma_strip_end(rest, p);
    let to = from + n;
    assert(trimmed(s) =~= s.subrange(from, to));
    assert forall|k: int| 0 <= k < from || to <= k < s.len() implies white_space(
        #[trigger] s[k],
    ) by {
        if k < from {
            assert(p(s[k]));
        } else {
            assert(rest[k - from] == s[k]);
            assert(p(rest[k - from]));
        }
    }
    if from < to {
        assert(rest[n - 1] == s[to - 1]);
        assert(!p(rest[n - 1]));
        assert(!p(s[from]));
    }
    (from, to)
}

/// What is cut off a path is all the slashes at its end, or at its start, and
/// nothing else.
pub proof fn law_slashes_are_cut_off(s: Seq<char>) -> (r: (int, int))
    ensures
        0 <= r.0 <= s.len(),
        without_start_slashes(s) == s.skip(r.0),
        forall|k: int| 0 <= k < r.0 ==> (#[trigger] s[k]) == '/',
        r.0 < s.len() ==> s[r.0] != '/',
        0 <= r.1 <= s.len(),
        without_end_slashes(s) == s.take(r.1),
        forall|k: int| r.1 <= k < s.len() ==> (#[trigger] s[k]) == '/',
        r.1 > 0 ==> s[r.1 - 1] != '/',
{
    let p = |c: char| c == '/';
    let from = lemma_strip_start(s, p);
    let to = lemma_strip_end(s, p);
    assert forall|k: int| 0 <= k < from implies (#[trigger] s[k]) == '/' by {
        assert(p(s[k]));
    }
    assert forall|k: int| to <= k < s.len() implies (#[trigger] s[k]) == '/' by {
        assert(p(s[k]));
    }
    (from, to)
}

/// Where texts first differ, the smaller code point, or the end, comes first.
pub proof fn law_first_difference_decides(a: Seq<char>, b: Seq<char>, n: int)
    requires
        0 <= n <= a.len(),
        n <= b.len(),
        a.take(n) == b.take(n),
    ensures
        n == a.len() && n < b.len() ==> text_lt(a, b) && !text_lt(b, a),
        n < a.len() && n < b.len() && (a[n] as int) < (b[n] as int) ==> text_lt(a, b) && !text_lt(
            b,
            a,
        ),
        n == a.len() == b.len() ==> !text_lt(a, b),
    decreases n,
{
    if n > 0 {
        assert(a[0] == a.take(n)[0] && b[0] == b.take(n)[0]);
        let x = a.drop_first();
        let y = b.drop_first();
        assert(x.take(n - 1) =~= y.take(n - 1)) by {
            assert forall|k: int| 0 <= k < n - 1 implies x[k] == y[k] by {
                assert(x[k] == a.take(n)[k + 1] && y[k] == b.take(n)[k + 1]);
            }
        }
        law_first_difference_decides(x, y, n - 1);
    }
}

/// White space is tab to carriage return, the space, the next-line character,
/// the no-break and the Ogham space, the general spaces, the two separators,
/// the narrow and the mathematical space, and the ideographic one.
pub proof fn law_white_space_characters(c: char)
    ensures
        white_space(c) <==> seq![
            9u32,
            10,
            11,
            12,
            13,
            32,
            133,
            160,
            5760,
            8192,
            8193,
            8194,
            8195,
            8196,
            8197,
            8198,
            8199,
            8200,
            8201,
            8202,
            8232,
            8233,
            8239,
            8287,
            12288,
        ].contains(c as u32),
        blank(seq![c]) == white_space(c),
{
    let all = seq![
        9u32,
        10,
        11,
        12,
        13,
        32,
        133,
        160,
        5760,
        8192,
        8193,
        8194,
        8195,
        8196,
        8197,
        8198,
        8199,
        8200,
        8201,
        8202,
        8232,
        8233,
        8239,
        8287,
        12288,
    ];
    let n = c as u32;
    if white_space(c) {
        let i: int = if n <= 13 {
            n - 9
        } else if n == 32 {
            5
        } else if n == 133 {
            6
        } else if n == 160 {
            7
        } else if n == 5760 {
            8
        } else if n <= 8202 {
            n - 8192 + 9
        } else if n == 8232 {
            20
        } else if n == 8233 {
            21
        } else if n == 8239 {
            22
        } else if n == 8287 {
            23
        } else {
            24
        };
        assert(all[i] == n);
    }
    assert(seq![c][0] == c);
}

/// A text is blank if both of its parts are.
pub proof fn law_blank_parts(a: Seq<char>, b: Seq<char>)
    ensures
        blank(a + b) <==> blank(a) && blank(b),
        blank(Seq::empty()),
{
    if blank(a + b) {
        assert forall|i: int| 0 <= i < a.len() implies white_space(#[trigger] a[i]) by {
            assert((a + b)[i] == a[i]);
        }
        assert forall|i: int| 0 <= i < b.len() implies white_space(#[trigger] b[i]) by {
            assert((a + b)[a.len() + i] == b[i]);
        }
    }
}

} // verus!
