//! Include patterns that match one path verbatim.

use vstd::prelude::*;
use vstd::string::*;
use crate::text;

verus! {

/// The characters that a pattern gives a meaning: the backslash takes the next
/// character literally, the others match more than themselves.
pub open spec fn special(c: char) -> bool {
    c == '\\' || c == '*' || c == '?' || c == '['
}

/// A path with a backslash before each character that a pattern gives a
/// meaning.
pub open spec fn escaped(path: Seq<char>) -> Seq<char>
    decreases path.len(),
{
    if path.len() == 0 {
        seq![]
    } else if special(path.last()) {
        escaped(path.drop_last()).push('\\').push(path.last())
    } else {
        escaped(path.drop_last()).push(path.last())
    }
}

/// The one text that a pattern matches, if it is a pattern that matches
/// exactly one: every special character in it is taken literally.
pub open spec fn matched_verbatim(pattern: Seq<char>) -> Option<Seq<char>>
    decreases pattern.len(),
{
    if pattern.len() == 0 {
        Some(seq![])
    } else if pattern[0] == '\\' {
        if pattern.len() == 1 {
            None
        } else {
            match matched_verbatim(pattern.skip(2)) {
                Some(rest) => Some(seq![pattern[1]] + rest),
                None => None,
            }
        }
    } else if special(pattern[0]) {
        None
    } else {
        match matched_verbatim(pattern.skip(1)) {
            Some(rest) => Some(seq![pattern[0]] + rest),
            None => None,
        }
    }
}

/// The pattern that matches `path` and nothing else.
pub fn escape_include_pattern(path: &str) -> (r: String)
    ensures
        r@ == escaped(path@),
{
    let chars: Vec<char> = text::chars_of(path);
    let mut out = String::new();
    let mut i: usize = 0;
    assert(chars@.take(0) =~= Seq::<char>::empty());
    while i < chars.len()
        invariant
            i <= chars@.len(),
            out@ == escaped(chars@.take(i as int)),
        decreases chars@.len() - i,
    {
        let c: char = text::char_at(chars.as_slice(), i);
        assert(chars@.take(i + 1).drop_last() =~= chars@.take(i as int));
        if c == '\\' || c == '*' || c == '?' || c == '[' {
            out.push('\\');
        }
        out.push(c);
        i += 1;
    }
    assert(chars@.take(chars@.len() as int) =~= chars@);
    out
}

proof fn lemma_matched_append(p: Seq<char>, c: char)
    requires
        matched_verbatim(p) is Some,
    ensures
        !special(c) ==> matched_verbatim(p.push(c)) == Some(matched_verbatim(p)->0.push(c)),
        matched_verbatim(p.push('\\').push(c)) == Some(matched_verbatim(p)->0.push(c)),
    decreases p.len(),
{
    let plain = p.push(c);
    let esc = p.push('\\').push(c);
    let whole = matched_verbatim(p)->0;
    if p.len() == 0 {
        assert(matched_verbatim(Seq::<char>::empty()) == Some(Seq::<char>::empty()));
        assert(esc.skip(2) =~= Seq::<char>::empty());
        assert(plain.skip(1) =~= Seq::<char>::empty());
        assert(seq![c] + Seq::<char>::empty() =~= whole.push(c));
    } else {
        let step: int = if p[0] == '\\' {
            2
        } else {
            1
        };
        let rest = matched_verbatim(p.skip(step))->0;
        lemma_matched_append(p.skip(step), c);
        assert(plain.skip(step) =~= p.skip(step).push(c));
        assert(esc.skip(step) =~= p.skip(step).push('\\').push(c));
        assert(plain[0] == p[0] && esc[0] == p[0]);
        if step == 2 {
            assert(plain[1] == p[1] && esc[1] == p[1]);
        }
        assert(seq![p[step - 1]] + rest.push(c) =~= (seq![p[step - 1]] + rest).push(c));
    }
}

/// An escaped path, read as a pattern, matches that path and no other.
pub proof fn law_escaped_path_matches_verbatim(path: Seq<char>)
    ensures
        matched_verbatim(escaped(path)) == Some(path),
    decreases path.len(),
{
    if path.len() == 0 {
        assert(path =~= Seq::<char>::empty());
    } else {
        law_escaped_path_matches_verbatim(path.drop_last());
        lemma_matched_append(escaped(path.drop_last()), path.last());
        assert(path.drop_last().push(path.last()) =~= path);
    }
}

/// Escaping goes character by character, and puts a backslash before exactly
/// the four characters that a pattern gives a meaning.
pub proof fn law_escaping_goes_by_character(a: Seq<char>, b: Seq<char>, c: char)
    ensures
        escaped(a + b) == escaped(a) + escaped(b),
        escaped(seq![c]) == if c == '\\' || c == '*' || c == '?' || c == '[' {
            seq!['\\', c]
        } else {
            seq![c]
        },
    decreases b.len(),
{
    let one = seq![c];
    assert(one.drop_last() =~= Seq::<char>::empty());
    assert(escaped(Seq::<char>::empty()) =~= Seq::<char>::empty());
    assert(escaped(one) =~= if special(c) {
        seq!['\\', c]
    } else {
        seq![c]
    });
    if b.len() == 0 {
        assert(a + b =~= a);
        assert(escaped(a) + escaped(b) =~= escaped(a));
    } else {
        law_escaping_goes_by_character(a, b.drop_last(), c);
        assert((a + b).drop_last() =~= a + b.drop_last());
        assert((a + b).last() == b.last());
        assert(escaped(a + b) =~= escaped(a) + escaped(b));
    }
}

} // verus!
