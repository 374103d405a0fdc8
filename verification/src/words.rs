//! The password command: how its text splits into words, and what its output
//! has to look like.

use vstd::prelude::*;
use vstd::string::*;
use crate::text;

verus! {

/// The quotes that a character of a command line stands in.
#[derive(Clone, Copy, PartialEq, Eq, Structural)]
pub enum Quote {
    Plain,
    Single,
    Double,
}

/// What a piece of a command line stands for.
pub enum Mark {
    /// Characters of a word.
    Literal(Seq<char>),
    /// The start of a quoted part: a word, if only an empty one.
    Quoted,
    /// White space between words.
    Gap,
}

/// The characters that a backslash takes their meaning from inside double quotes.
pub open spec fn escaped_in_double(c: char) -> bool {
    c == '"' || c == '\\' || c == '$' || c == '`'
}

/// What the characters of a command line stand for, read from inside `quote`.
/// A backslash takes the next character literally; inside double quotes it
/// does so only for the characters that are special there, and stays
/// otherwise; inside single quotes it is an ordinary character. A backslash
/// with nothing behind it stands for nothing.
pub open spec fn marks(s: Seq<char>, quote: Quote) -> Seq<Mark>
    decreases s.len(),
{
    if s.len() == 0 {
        seq![]
    } else {
        let c = s[0];
        let rest = s.drop_first();
        match quote {
            Quote::Plain => if c == '\'' {
                seq![Mark::Quoted] + marks(rest, Quote::Single)
            } else if c == '"' {
                seq![Mark::Quoted] + marks(rest, Quote::Double)
            } else if c == '\\' {
                if rest.len() == 0 {
                    seq![]
                } else {
                    seq![Mark::Literal(seq![rest[0]])] + marks(rest.drop_first(), Quote::Plain)
                }
            } else if text::white_space(c) {
                seq![Mark::Gap] + marks(rest, Quote::Plain)
            } else {
                seq![Mark::Literal(seq![c])] + marks(rest, Quote::Plain)
            },
            Quote::Single => if c == '\'' {
                marks(rest, Quote::Plain)
            } else {
                seq![Mark::Literal(seq![c])] + marks(rest, Quote::Single)
            },
            Quote::Double => if c == '"' {
                marks(rest, Quote::Plain)
            } else if c == '\\' {
                if rest.len() == 0 {
                    seq![]
                } else if escaped_in_double(rest[0]) {
                    seq![Mark::Literal(seq![rest[0]])] + marks(rest.drop_first(), Quote::Double)
                } else {
                    seq![Mark::Literal(seq!['\\']), Mark::Literal(seq![rest[0]])] + marks(
                        rest.drop_first(),
                        Quote::Double,
                    )
                }
            } else {
                seq![Mark::Literal(seq![c])] + marks(rest, Quote::Double)
            },
        }
    }
}

/// The words that a sequence of marks spells: those that a gap has ended, and
/// the one that is still open.
pub open spec fn gather(ms: Seq<Mark>) -> (Seq<Seq<char>>, Option<Seq<char>>)
    decreases ms.len(),
{
    if ms.len() == 0 {
        (seq![], None)
    } else {
        let (words, word) = gather(ms.drop_last());
        match ms.last() {
            Mark::Literal(piece) => match word {
                Some(w) => (words, Some(w + piece)),
                None => (words, Some(piece)),
            },
            Mark::Quoted => match word {
                Some(w) => (words, Some(w)),
                None => (words, Some(seq![])),
            },
            Mark::Gap => match word {
                Some(w) => (words.push(w), None),
                None => (words, None),
            },
        }
    }
}

/// The words of a command line.
pub open spec fn command_words(s: Seq<char>) -> Seq<Seq<char>> {
    let (words, word) = gather(marks(s, Quote::Plain));
    match word {
        Some(w) => words.push(w),
        None => words,
    }
}

proof fn lemma_gather_push(ms: Seq<Mark>, m: Mark)
    ensures
        gather(ms.push(m)) == ({
            let (words, word) = gather(ms);
            match m {
                Mark::Literal(piece) => match word {
                    Some(w) => (words, Some(w + piece)),
                    None => (words, Some(piece)),
                },
                Mark::Quoted => match word {
                    Some(w) => (words, Some(w)),
                    None => (words, Some(seq![])),
                },
                Mark::Gap => match word {
                    Some(w) => (words.push(w), None),
                    None => (words, None),
                },
            }
        }),
{
    assert(ms.push(m).drop_last() =~= ms);
}

/// Splits a command line into words the way a shell does, without running one.
pub fn split_command_words(input: &str) -> (r: Vec<String>)
    ensures
        text::texts(r@) == command_words(input@),
{
    broadcast use text::lemma_texts_push;

    let chars: Vec<char> = text::chars_of(input);
    let mut words: Vec<String> = Vec::new();
    let mut current = String::new();
    let mut has_word = false;
    let mut quote = Quote::Plain;
    let mut i: usize = 0;
    let ghost mut seen: Seq<Mark> = seq![];
    proof {
        assert(chars@.skip(0) =~= chars@);
        assert(seen + marks(chars@, Quote::Plain) =~= marks(chars@, Quote::Plain));
        assert(text::texts(words@) =~= Seq::<Seq<char>>::empty());
    }
    while i < chars.len()
        invariant
            i <= chars@.len(),
            chars@ == input@,
            marks(chars@, Quote::Plain) == seen + marks(chars@.skip(i as int), quote),
            gather(seen) == (text::texts(words@), if has_word {
                Some(current@)
            } else {
                None::<Seq<char>>
            }),
            !has_word ==> current@ == Seq::<char>::empty(),
            quote != Quote::Plain ==> has_word,
        decreases chars@.len() - i,
    {
        broadcast use text::lemma_texts_push;

        let c: char = text::char_at(&chars, i);
        let ghost rest = chars@.skip(i as int);
        proof {
            assert(rest[0] == c);
            assert(rest.drop_first() =~= chars@.skip(i + 1));
            if i + 1 < chars@.len() {
                assert(rest.drop_first()[0] == chars@[i + 1]);
                assert(rest.drop_first().drop_first() =~= chars@.skip(i + 2));
            }
        }
        let ghost before = seen;
        let ghost ahead = marks(rest, quote);
        let ghost mut added: Seq<Mark> = seq![];
        i += 1;
        match quote {
            Quote::Plain => {
                if c == '\'' {
                    quote = Quote::Single;
                    has_word = true;
                    proof {
                        added = added.push(Mark::Quoted);
                    }
                } else if c == '"' {
                    quote = Quote::Double;
                    has_word = true;
                    proof {
                        added = added.push(Mark::Quoted);
                    }
                } else if c == '\\' {
                    if i < chars.len() {
                        let n: char = text::char_at(&chars, i);
                        current.push(n);
                        has_word = true;
                        proof {
                            added = added.push(Mark::Literal(seq![n]));
                        }
                        i += 1;
                    }
                } else if text::is_white_space(c) {
                    proof {
                        added = added.push(Mark::Gap);
                    }
                    if has_word {
                        words.push(current);
                        current = String::new();
                        has_word = false;
                    }
                } else {
                    current.push(c);
                    has_word = true;
                    proof {
                        added = added.push(Mark::Literal(seq![c]));
                    }
                }
            },
            Quote::Single => {
                if c == '\'' {
                    quote = Quote::Plain;
                } else {
                    current.push(c);
                    proof {
                        added = added.push(Mark::Literal(seq![c]));
                    }
                }
            },
            Quote::Double => {
                if c == '"' {
                    quote = Quote::Plain;
                } else if c == '\\' {
                    if i < chars.len() {
                        let n: char = text::char_at(&chars, i);
                        if !(n == '"' || n == '\\' || n == '$' || n == '`') {
                            current.push('\\');
                            proof {
                                added = added.push(Mark::Literal(seq!['\\']));
                            }
                        }
                        current.push(n);
                        proof {
                            added = added.push(Mark::Literal(seq![n]));
                        }
                        i += 1;
                    }
                } else {
                    current.push(c);
                    proof {
                        added = added.push(Mark::Literal(seq![c]));
                    }
                }
            },
        }
        proof {
            let tail = marks(chars@.skip(i as int), quote);
            assert(ahead =~= added + tail);
            assert(before + ahead =~= before + added + tail);
            if added.len() == 0 {
                assert(before + added =~= before);
            } else if added.len() == 1 {
                lemma_gather_push(before, added[0]);
                assert(before + added =~= before.push(added[0]));
            } else {
                lemma_gather_push(before, added[0]);
                lemma_gather_push(before.push(added[0]), added[1]);
                assert(before + added =~= before.push(added[0]).push(added[1]));
            }
            seen = before + added;
        }
    }
    proof {
        assert(chars@.skip(i as int) =~= Seq::<char>::empty());
        assert(seen + marks(Seq::<char>::empty(), quote) =~= seen);
    }
    if has_word {
        words.push(current);
    }
    words
}

/// A text with a backslash before each character that is special inside double
/// quotes.
pub open spec fn escape_double(w: Seq<char>) -> Seq<char>
    decreases w.len(),
{
    if w.len() == 0 {
        seq![]
    } else if escaped_in_double(w[0]) {
        seq!['\\', w[0]] + escape_double(w.drop_first())
    } else {
        seq![w[0]] + escape_double(w.drop_first())
    }
}

/// A text in double quotes.
pub open spec fn double_quoted(w: Seq<char>) -> Seq<char> {
    seq!['"'] + escape_double(w) + seq!['"']
}

/// The command line that holds each of the texts in double quotes, with a
/// space between neighbours.
pub open spec fn quoted_line(ws: Seq<Seq<char>>) -> Seq<char> {
    text::join(ws.map_values(|w: Seq<char>| double_quoted(w)), seq![' '])
}

/// The marks of a text that is taken literally.
spec fn literals(w: Seq<char>) -> Seq<Mark>
    decreases w.len(),
{
    if w.len() == 0 {
        seq![]
    } else {
        seq![Mark::Literal(seq![w[0]])] + literals(w.drop_first())
    }
}

proof fn lemma_literals_push(w: Seq<char>, c: char)
    ensures
        literals(w.push(c)) == literals(w).push(Mark::Literal(seq![c])),
    decreases w.len(),
{
    if w.len() == 0 {
        assert(w.push(c).drop_first() =~= Seq::<char>::empty());
        assert(w.push(c)[0] == c);
        assert(literals(Seq::<char>::empty()) == Seq::<Mark>::empty());
        assert(literals(w) == Seq::<Mark>::empty());
        assert(literals(w.push(c)) =~= literals(w).push(Mark::Literal(seq![c])));
    } else {
        lemma_literals_push(w.drop_first(), c);
        assert(w.push(c).drop_first() =~= w.drop_first().push(c));
        assert(literals(w.push(c)) =~= literals(w).push(Mark::Literal(seq![c])));
    }
}

proof fn lemma_marks_escaped(w: Seq<char>, rest: Seq<char>)
    ensures
        marks(escape_double(w) + seq!['"'] + rest, Quote::Double) == literals(w) + marks(
            rest,
            Quote::Plain,
        ),
    decreases w.len(),
{
    let s = escape_double(w) + seq!['"'] + rest;
    if w.len() == 0 {
        assert(s.drop_first() =~= rest);
        assert(literals(w) + marks(rest, Quote::Plain) =~= marks(rest, Quote::Plain));
    } else {
        let tail = escape_double(w.drop_first()) + seq!['"'] + rest;
        lemma_marks_escaped(w.drop_first(), rest);
        if escaped_in_double(w[0]) {
            assert(s[0] == '\\');
            assert(s.drop_first()[0] == w[0]);
            assert(s.drop_first().drop_first() =~= tail);
        } else {
            assert(s[0] == w[0]);
            assert(s.drop_first() =~= tail);
        }
        assert(literals(w) + marks(rest, Quote::Plain) =~= seq![Mark::Literal(seq![w[0]])] + (literals(
            w.drop_first(),
        ) + marks(rest, Quote::Plain)));
    }
}

proof fn lemma_marks_quoted(w: Seq<char>, rest: Seq<char>)
    ensures
        marks(double_quoted(w) + rest, Quote::Plain) == seq![Mark::Quoted] + literals(w) + marks(
            rest,
            Quote::Plain,
        ),
{
    let s = double_quoted(w) + rest;
    lemma_marks_escaped(w, rest);
    assert(s[0] == '"');
    assert(s.drop_first() =~= escape_double(w) + seq!['"'] + rest);
    assert(seq![Mark::Quoted] + literals(w) + marks(rest, Quote::Plain) =~= seq![Mark::Quoted] + (
    literals(w) + marks(rest, Quote::Plain)));
}

proof fn lemma_gather_quoted(ms: Seq<Mark>, w: Seq<char>)
    requires
        gather(ms).1 is None,
    ensures
        gather(ms + (seq![Mark::Quoted] + literals(w))) == (gather(ms).0, Some(w)),
    decreases w.len(),
{
    if w.len() == 0 {
        lemma_gather_push(ms, Mark::Quoted);
        assert(ms + (seq![Mark::Quoted] + literals(w)) =~= ms.push(Mark::Quoted));
        assert(w =~= Seq::<char>::empty());
    } else {
        let head = ms + (seq![Mark::Quoted] + literals(w.drop_last()));
        lemma_gather_quoted(ms, w.drop_last());
        lemma_gather_push(head, Mark::Literal(seq![w.last()]));
        assert(w =~= w.drop_last().push(w.last()));
        lemma_literals_push(w.drop_last(), w.last());
        assert(ms + (seq![Mark::Quoted] + literals(w)) =~= head.push(Mark::Literal(seq![w.last()])));
    }
}

/// The marks of a line of quoted words.
spec fn quoted_line_marks(ws: Seq<Seq<char>>) -> Seq<Mark>
    decreases ws.len(),
{
    if ws.len() == 0 {
        seq![]
    } else if ws.len() == 1 {
        seq![Mark::Quoted] + literals(ws[0])
    } else {
        quoted_line_marks(ws.drop_last()).push(Mark::Gap) + (seq![Mark::Quoted] + literals(
            ws.last(),
        ))
    }
}

proof fn lemma_quoted_line(ws: Seq<Seq<char>>, rest: Seq<char>)
    requires
        ws.len() > 0,
    ensures
        marks(quoted_line(ws) + rest, Quote::Plain) == quoted_line_marks(ws) + marks(
            rest,
            Quote::Plain,
        ),
        gather(quoted_line_marks(ws)) == (ws.drop_last(), Some(ws.last())),
    decreases ws.len(),
{
    let parts = ws.map_values(|w: Seq<char>| double_quoted(w));
    if ws.len() == 1 {
        lemma_marks_quoted(ws[0], rest);
        lemma_gather_quoted(seq![], ws[0]);
        assert(seq![] + (seq![Mark::Quoted] + literals(ws[0])) =~= seq![Mark::Quoted] + literals(
            ws[0],
        ));
        assert(ws.drop_last() =~= Seq::<Seq<char>>::empty());
    } else {
        let init = ws.drop_last();
        let last = ws.last();
        let back = double_quoted(last) + rest;
        lemma_quoted_line(init, seq![' '] + back);
        lemma_marks_quoted(last, rest);
        assert(parts.drop_last() =~= init.map_values(|w: Seq<char>| double_quoted(w)));
        assert(quoted_line(ws) + rest =~= quoted_line(init) + (seq![' '] + back));
        assert((seq![' '] + back).drop_first() =~= back);
        let word = seq![Mark::Quoted] + literals(last);
        assert(marks(seq![' '] + back, Quote::Plain) =~= seq![Mark::Gap] + (word + marks(
            rest,
            Quote::Plain,
        )));
        let head = quoted_line_marks(init);
        assert(quoted_line_marks(ws) + marks(rest, Quote::Plain) =~= head + (seq![Mark::Gap] + (word
            + marks(rest, Quote::Plain))));
        lemma_gather_push(head, Mark::Gap);
        lemma_gather_quoted(head.push(Mark::Gap), last);
        assert(init.drop_last().push(init.last()) =~= init);
    }
}

/// Splitting undoes quoting: the words of a line of double-quoted texts are
/// those texts, whatever characters they hold.
pub proof fn law_splitting_undoes_quoting(ws: Seq<Seq<char>>)
    ensures
        command_words(quoted_line(ws)) == ws,
{
    if ws.len() == 0 {
        assert(ws.map_values(|w: Seq<char>| double_quoted(w)) =~= Seq::<Seq<char>>::empty());
        assert(ws =~= Seq::<Seq<char>>::empty());
    } else {
        lemma_quoted_line(ws, seq![]);
        assert(quoted_line(ws) + seq![] =~= quoted_line(ws));
        assert(quoted_line_marks(ws) + marks(seq![], Quote::Plain) =~= quoted_line_marks(ws));
        assert(ws.drop_last().push(ws.last()) =~= ws);
    }
}

proof fn lemma_marks_single(w: Seq<char>)
    requires
        !w.contains('\''),
    ensures
        marks(w + seq!['\''], Quote::Single) == literals(w),
    decreases w.len(),
{
    let s = w + seq!['\''];
    if w.len() == 0 {
        assert(s.drop_first() =~= Seq::<char>::empty());
        assert(marks(Seq::<char>::empty(), Quote::Plain) == Seq::<Mark>::empty());
        assert(s[0] == '\'');
        assert(literals(w) =~= Seq::<Mark>::empty());
    } else {
        assert(w[0] != '\'');
        assert forall|i: int| 0 <= i < w.drop_first().len() implies w.drop_first()[i] != '\'' by {
            assert(w.drop_first()[i] == w[i + 1]);
        }
        lemma_marks_single(w.drop_first());
        assert(s.drop_first() =~= w.drop_first() + seq!['\'']);
        assert(s[0] == w[0]);
        assert(literals(w) =~= seq![Mark::Literal(seq![w[0]])] + literals(w.drop_first()));
    }
}

/// Single quotes keep everything between them: a text without a single quote,
/// put in single quotes, is one word and that text.
pub proof fn law_single_quotes_are_verbatim(w: Seq<char>)
    requires
        !w.contains('\''),
    ensures
        command_words(seq!['\''] + w + seq!['\'']) == seq![w],
{
    let s = seq!['\''] + w + seq!['\''];
    assert(s.drop_first() =~= w + seq!['\'']);
    lemma_marks_single(w);
    lemma_gather_quoted(seq![], w);
    assert(seq![] + (seq![Mark::Quoted] + literals(w)) =~= seq![Mark::Quoted] + literals(w));
}

/// White space alone holds no word.
pub proof fn law_blank_command_has_no_words(s: Seq<char>)
    requires
        text::blank(s),
    ensures
        command_words(s) == Seq::<Seq<char>>::empty(),
{
    lemma_blank_marks(s);
    lemma_gather_gaps(marks(s, Quote::Plain));
}

proof fn lemma_blank_marks(s: Seq<char>)
    requires
        text::blank(s),
    ensures
        forall|i: int|
            0 <= i < marks(s, Quote::Plain).len() ==> #[trigger] marks(s, Quote::Plain)[i]
                == Mark::Gap,
    decreases s.len(),
{
    if s.len() > 0 {
        assert(text::white_space(s[0]));
        assert forall|i: int| 0 <= i < s.drop_first().len() implies text::white_space(
            #[trigger] s.drop_first()[i],
        ) by {
            assert(s.drop_first()[i] == s[i + 1]);
        }
        lemma_blank_marks(s.drop_first());
        let tail = marks(s.drop_first(), Quote::Plain);
        assert(marks(s, Quote::Plain) =~= seq![Mark::Gap] + tail);
    }
}

proof fn lemma_gather_gaps(ms: Seq<Mark>)
    requires
        forall|i: int| 0 <= i < ms.len() ==> #[trigger] ms[i] == Mark::Gap,
    ensures
        gather(ms) == (Seq::<Seq<char>>::empty(), None::<Seq<char>>),
    decreases ms.len(),
{
    if ms.len() > 0 {
        assert(ms.last() == Mark::Gap);
        lemma_gather_gaps(ms.drop_last());
    }
}

/// The program and the arguments that a password command runs, or why it
/// cannot be run.
pub fn password_argv(command: &str) -> (r: Result<(String, Vec<String>), String>)
    ensures
        match r {
            Ok((bin, rest)) => seq![bin@] + text::texts(rest@) == command_words(command@),
            Err(e) => command_words(command@).len() == 0 && e@ == "passwordCommand is empty"@,
        },
{
    let mut words: Vec<String> = split_command_words(command);
    if words.len() == 0 {
        return Err("passwordCommand is empty".to_owned());
    }
    let ghost all = words@;
    let bin: String = words.remove(0);
    assert(seq![bin@] + text::texts(words@) =~= text::texts(all));
    Ok((bin, words))
}

/// The bytes that count as ASCII white space.
pub open spec fn ascii_white_space(b: u8) -> bool {
    b == 0x20 || b == 0x9 || b == 0xa || b == 0xc || b == 0xd
}

/// What a finished password command comes to.
pub open spec fn password_verdict(success: bool, status: Seq<char>, stdout: Seq<u8>) -> Result<
    (),
    Seq<char>,
> {
    if !success {
        Err("password command failed with "@ + status)
    } else if exists|i: int| 0 <= i < stdout.len() && !ascii_white_space(#[trigger] stdout[i]) {
        Ok(())
    } else {
        Err("password command produced no output"@)
    }
}

/// Whether a finished password command gave a password: it has to succeed and
/// to print more than white space.
pub fn judge_password(success: bool, status: &str, stdout: &[u8]) -> (r: Result<(), String>)
    ensures
        r is Ok <==> success && exists|i: int|
            0 <= i < stdout@.len() && !ascii_white_space(#[trigger] stdout@[i]),
        r matches Err(e) ==> e@ == if success {
            "password command produced no output"@
        } else {
            "password command failed with "@ + status@
        },
        match r {
            Ok(()) => password_verdict(success, status@, stdout@) == Ok::<(), Seq<char>>(()),
            Err(e) => password_verdict(success, status@, stdout@) == Err::<(), Seq<char>>(e@),
        },
{
    if !success {
        let mut e = "password command failed with ".to_owned();
        e.append(status);
        return Err(e);
    }
    let mut i: usize = 0;
    while i < stdout.len()
        invariant
            i <= stdout@.len(),
            success,
            forall|j: int| 0 <= j < i ==> ascii_white_space(#[trigger] stdout@[j]),
        decreases stdout@.len() - i,
    {
        let b: u8 = stdout[i];
        if !(b == 0x20 || b == 0x9 || b == 0xa || b == 0xc || b == 0xd) {
            assert(!ascii_white_space(stdout@[i as int]));
            return Ok(());
        }
        i += 1;
    }
    Err("password command produced no output".to_owned())
}

// ---------------------------------------------------------------------------
// How words are spelled

/// A part of a word, by how it is spelled.
pub enum Part {
    /// Characters without a meaning of their own.
    Bare(Seq<char>),
    /// A backslash and one character.
    Escaped(Seq<char>),
    /// A text in single quotes.
    Single(Seq<char>),
    /// A text in double quotes.
    Double(Seq<char>),
    /// A backslash and one character, in double quotes.
    DoubleEscaped(Seq<char>),
}

/// Whether a part can be spelled in this way.
pub open spec fn can_spell(p: Part) -> bool {
    match p {
        Part::Bare(w) => {
            &&& w.len() > 0
            &&& !w.contains('\'')
            &&& !w.contains('"')
            &&& !w.contains('\\')
            &&& forall|i: int| 0 <= i < w.len() ==> !text::white_space(#[trigger] w[i])
        },
        Part::Escaped(w) => w.len() == 1,
        Part::Single(w) => !w.contains('\''),
        Part::Double(w) => !w.contains('"') && !w.contains('\\'),
        Part::DoubleEscaped(w) => w.len() == 1,
    }
}

/// How a part is spelled.
pub open spec fn spelled(p: Part) -> Seq<char> {
    match p {
        Part::Bare(w) => w,
        Part::Escaped(w) => seq!['\\'] + w,
        Part::Single(w) => seq!['\''] + w + seq!['\''],
        Part::Double(w) => seq!['"'] + w + seq!['"'],
        Part::DoubleEscaped(w) => seq!['"', '\\'] + w + seq!['"'],
    }
}

/// What a part stands for: itself; but in double quotes a backslash stays
/// before every character other than a double quote, a backslash, a dollar
/// sign and a backtick.
pub open spec fn meant(p: Part) -> Seq<char> {
    match p {
        Part::Bare(w) => w,
        Part::Escaped(w) => w,
        Part::Single(w) => w,
        Part::Double(w) => w,
        Part::DoubleEscaped(w) => if w[0] == '"' || w[0] == '\\' || w[0] == '$' || w[0] == '`' {
            w
        } else {
            seq!['\\'] + w
        },
    }
}

/// Whether all parts of a word can be spelled as they are.
pub open spec fn can_spell_all(ps: Seq<Part>) -> bool {
    forall|i: int| 0 <= i < ps.len() ==> can_spell(#[trigger] ps[i])
}

/// How a word is spelled: its parts, one after the other.
pub open spec fn spelled_all(ps: Seq<Part>) -> Seq<char>
    decreases ps.len(),
{
    if ps.len() == 0 {
        seq![]
    } else {
        spelled_all(ps.drop_last()) + spelled(ps.last())
    }
}

/// What a word stands for.
pub open spec fn meant_all(ps: Seq<Part>) -> Seq<char>
    decreases ps.len(),
{
    if ps.len() == 0 {
        seq![]
    } else {
        meant_all(ps.drop_last()) + meant(ps.last())
    }
}

/// The marks of a part.
spec fn part_marks(p: Part) -> Seq<Mark> {
    match p {
        Part::Bare(w) => literals(w),
        Part::Escaped(w) => literals(w),
        _ => seq![Mark::Quoted] + literals(meant(p)),
    }
}

/// The marks of a word.
spec fn word_marks(ps: Seq<Part>) -> Seq<Mark>
    decreases ps.len(),
{
    if ps.len() == 0 {
        seq![]
    } else {
        word_marks(ps.drop_last()) + part_marks(ps.last())
    }
}

proof fn lemma_one_literal(w: Seq<char>)
    requires
        w.len() == 1,
    ensures
        literals(w) == seq![Mark::Literal(seq![w[0]])],
{
    assert(w.drop_first() =~= Seq::<char>::empty());
    assert(literals(Seq::<char>::empty()) == Seq::<Mark>::empty());
    assert(literals(w) =~= seq![Mark::Literal(seq![w[0]])]);
}

/// A text that lacks a character lacks it at its start and behind it.
proof fn lemma_lacks_tail(w: Seq<char>)
    requires
        w.len() > 0,
    ensures
        forall|c: char| !w.contains(c) ==> w[0] != c && !(#[trigger] w.drop_first().contains(c)),
{
    assert forall|c: char| !w.contains(c) implies w[0] != c && !(
    #[trigger] w.drop_first().contains(c)) by {
        assert(w.contains(w[0]));
        if w.drop_first().contains(c) {
            let i = choose|i: int| 0 <= i < w.drop_first().len() && w.drop_first()[i] == c;
            assert(w[i + 1] == c);
        }
    }
}

proof fn lemma_bare_marks(w: Seq<char>, rest: Seq<char>)
    requires
        w.len() > 0 ==> can_spell(Part::Bare(w)),
    ensures
        marks(w + rest, Quote::Plain) == literals(w) + marks(rest, Quote::Plain),
    decreases w.len(),
{
    let s = w + rest;
    if w.len() == 0 {
        assert(s =~= rest);
        assert(literals(w) + marks(rest, Quote::Plain) =~= marks(rest, Quote::Plain));
    } else {
        let tail = w.drop_first();
        lemma_lacks_tail(w);
        lemma_bare_marks(tail, rest);
        assert(s[0] == w[0]);
        assert(s.drop_first() =~= tail + rest);
        assert(literals(w) + marks(rest, Quote::Plain) =~= seq![Mark::Literal(seq![w[0]])] + (
        literals(tail) + marks(rest, Quote::Plain)));
    }
}

proof fn lemma_single_marks(w: Seq<char>, rest: Seq<char>)
    requires
        can_spell(Part::Single(w)),
    ensures
        marks(w + seq!['\''] + rest, Quote::Single) == literals(w) + marks(rest, Quote::Plain),
        marks(w, Quote::Single) == literals(w),
    decreases w.len(),
{
    let s = w + seq!['\''] + rest;
    if w.len() == 0 {
        assert(s.drop_first() =~= rest);
        assert(s[0] == '\'');
        assert(literals(w) + marks(rest, Quote::Plain) =~= marks(rest, Quote::Plain));
    } else {
        let tail = w.drop_first();
        lemma_lacks_tail(w);
        lemma_single_marks(tail, rest);
        assert(s[0] == w[0]);
        assert(s.drop_first() =~= tail + seq!['\''] + rest);
        assert(literals(w) + marks(rest, Quote::Plain) =~= seq![Mark::Literal(seq![w[0]])] + (
        literals(tail) + marks(rest, Quote::Plain)));
    }
}

proof fn lemma_double_marks(w: Seq<char>, rest: Seq<char>)
    requires
        can_spell(Part::Double(w)),
    ensures
        marks(w + seq!['"'] + rest, Quote::Double) == literals(w) + marks(rest, Quote::Plain),
        marks(w, Quote::Double) == literals(w),
        marks(w.push('\\'), Quote::Double) == literals(w),
    decreases w.len(),
{
    let s = w + seq!['"'] + rest;
    if w.len() == 0 {
        assert(s.drop_first() =~= rest);
        assert(s[0] == '"');
        assert(literals(w) + marks(rest, Quote::Plain) =~= marks(rest, Quote::Plain));
        assert(marks(w.push('\\'), Quote::Double) =~= Seq::<Mark>::empty());
    } else {
        let tail = w.drop_first();
        lemma_lacks_tail(w);
        lemma_double_marks(tail, rest);
        assert(s[0] == w[0]);
        assert(s.drop_first() =~= tail + seq!['"'] + rest);
        assert(w.push('\\').drop_first() =~= tail.push('\\'));
        assert(literals(w) + marks(rest, Quote::Plain) =~= seq![Mark::Literal(seq![w[0]])] + (
        literals(tail) + marks(rest, Quote::Plain)));
    }
}

proof fn lemma_part_marks(p: Part, rest: Seq<char>)
    requires
        can_spell(p),
    ensures
        marks(spelled(p) + rest, Quote::Plain) == part_marks(p) + marks(rest, Quote::Plain),
{
    let s = spelled(p) + rest;
    let after = marks(rest, Quote::Plain);
    match p {
        Part::Bare(w) => {
            lemma_bare_marks(w, rest);
        },
        Part::Escaped(w) => {
            lemma_one_literal(w);
            assert(s[0] == '\\');
            assert(s.drop_first()[0] == w[0]);
            assert(s.drop_first().drop_first() =~= rest);
        },
        Part::Single(w) => {
            lemma_single_marks(w, rest);
            assert(s[0] == '\'');
            assert(s.drop_first() =~= w + seq!['\''] + rest);
            assert(part_marks(p) + after =~= seq![Mark::Quoted] + (literals(w) + after));
        },
        Part::Double(w) => {
            lemma_double_marks(w, rest);
            assert(s[0] == '"');
            assert(s.drop_first() =~= w + seq!['"'] + rest);
            assert(part_marks(p) + after =~= seq![Mark::Quoted] + (literals(w) + after));
        },
        Part::DoubleEscaped(w) => {
            let inner = s.drop_first();
            assert(s[0] == '"');
            assert(inner[0] == '\\');
            assert(inner.drop_first()[0] == w[0]);
            let close = inner.drop_first().drop_first();
            assert(close =~= seq!['"'] + rest);
            assert(close[0] == '"' && close.drop_first() =~= rest);
            assert(marks(close, Quote::Double) == after);
            lemma_one_literal(w);
            if !escaped_in_double(w[0]) {
                let both = seq!['\\'] + w;
                assert(both.drop_first() =~= w);
                assert(literals(both) =~= seq![Mark::Literal(seq!['\\'])] + literals(w));
                assert(marks(inner, Quote::Double) =~= literals(both) + after);
            } else {
                assert(marks(inner, Quote::Double) =~= literals(w) + after);
            }
            assert(part_marks(p) + after =~= seq![Mark::Quoted] + (literals(meant(p)) + after));
        },
    }
}

/// The word that is being gathered, empty where none has begun.
spec fn open_word(ms: Seq<Mark>) -> Seq<char> {
    match gather(ms).1 {
        Some(w) => w,
        None => seq![],
    }
}

proof fn lemma_gather_literals(ms: Seq<Mark>, w: Seq<char>)
    requires
        w.len() > 0 || gather(ms).1 is Some,
    ensures
        gather(ms + literals(w)) == (gather(ms).0, Some(open_word(ms) + w)),
    decreases w.len(),
{
    if w.len() == 0 {
        assert(literals(w) =~= Seq::<Mark>::empty());
        assert(ms + literals(w) =~= ms);
        assert(open_word(ms) + w =~= open_word(ms));
    } else {
        let front = w.drop_last();
        let last = Mark::Literal(seq![w.last()]);
        assert(front.push(w.last()) =~= w);
        lemma_literals_push(front, w.last());
        assert(ms + literals(w) =~= (ms + literals(front)).push(last));
        lemma_gather_push(ms + literals(front), last);
        if front.len() > 0 || gather(ms).1 is Some {
            lemma_gather_literals(ms, front);
            assert(open_word(ms) + front + seq![w.last()] =~= open_word(ms) + w);
        } else {
            assert(literals(front) =~= Seq::<Mark>::empty());
            assert(ms + literals(front) =~= ms);
            assert(open_word(ms) + w =~= seq![w.last()]);
        }
    }
}

proof fn lemma_gather_part(ms: Seq<Mark>, p: Part)
    requires
        can_spell(p),
    ensures
        gather(ms + part_marks(p)) == (gather(ms).0, Some(open_word(ms) + meant(p))),
{
    match p {
        Part::Bare(w) => {
            lemma_gather_literals(ms, w);
        },
        Part::Escaped(w) => {
            lemma_gather_literals(ms, w);
        },
        _ => {
            let begun = ms.push(Mark::Quoted);
            lemma_gather_push(ms, Mark::Quoted);
            lemma_gather_literals(begun, meant(p));
            assert(ms + part_marks(p) =~= begun + literals(meant(p)));
        },
    }
}

proof fn lemma_word(ps: Seq<Part>, rest: Seq<char>)
    requires
        can_spell_all(ps),
    ensures
        marks(spelled_all(ps) + rest, Quote::Plain) == word_marks(ps) + marks(rest, Quote::Plain),
        gather(word_marks(ps)) == (Seq::<Seq<char>>::empty(), if ps.len() > 0 {
            Some(meant_all(ps))
        } else {
            None
        }),
    decreases ps.len(),
{
    let after = marks(rest, Quote::Plain);
    if ps.len() == 0 {
        assert(spelled_all(ps) + rest =~= rest);
        assert(word_marks(ps) + after =~= after);
    } else {
        let front = ps.drop_last();
        let p = ps.last();
        assert forall|i: int| 0 <= i < front.len() implies can_spell(#[trigger] front[i]) by {
            assert(front[i] == ps[i]);
        }
        assert(can_spell(ps[ps.len() - 1]));
        lemma_word(front, spelled(p) + rest);
        lemma_part_marks(p, rest);
        assert(spelled_all(ps) + rest =~= spelled_all(front) + (spelled(p) + rest));
        assert(word_marks(ps) + after =~= word_marks(front) + (part_marks(p) + after));
        lemma_gather_part(word_marks(front), p);
        if front.len() == 0 {
            assert(meant_all(front) == Seq::<char>::empty());
        }
        assert(open_word(word_marks(front)) == meant_all(front));
    }
}

proof fn lemma_gather_behind_gap(a: Seq<Mark>, b: Seq<Mark>)
    requires
        gather(a).1 is None,
    ensures
        gather(a + b) == (gather(a).0 + gather(b).0, gather(b).1),
    decreases b.len(),
{
    if b.len() == 0 {
        assert(a + b =~= a);
        assert(gather(a).0 + gather(b).0 =~= gather(a).0);
    } else {
        lemma_gather_behind_gap(a, b.drop_last());
        assert((a + b).drop_last() =~= a + b.drop_last());
        assert((a + b).last() == b.last());
        assert(gather(a + b).0 =~= gather(a).0 + gather(b).0);
    }
}

/// The words of a command line are what their parts stand for: parts that
/// touch make one word, and one white space, or more of it, ends it.
pub proof fn law_words_are_what_their_parts_mean(ps: Seq<Part>, gap: char, rest: Seq<char>)
    requires
        ps.len() > 0,
        can_spell_all(ps),
        text::white_space(gap),
    ensures
        command_words(spelled_all(ps)) == seq![meant_all(ps)],
        command_words(spelled_all(ps) + (seq![gap] + rest)) == seq![meant_all(ps)]
            + command_words(rest),
        command_words(seq![gap] + rest) == command_words(rest),
{
    let tail = seq![gap] + rest;
    let after = marks(rest, Quote::Plain);
    lemma_word(ps, Seq::empty());
    assert(spelled_all(ps) + Seq::<char>::empty() =~= spelled_all(ps));
    assert(word_marks(ps) + marks(Seq::empty(), Quote::Plain) =~= word_marks(ps));
    assert(command_words(spelled_all(ps)) =~= seq![meant_all(ps)]);
    lemma_word(ps, tail);
    assert(tail[0] == gap);
    assert(tail.drop_first() =~= rest);
    assert(marks(tail, Quote::Plain) == seq![Mark::Gap] + after);
    let ended = word_marks(ps).push(Mark::Gap);
    lemma_gather_push(word_marks(ps), Mark::Gap);
    assert(word_marks(ps) + (seq![Mark::Gap] + after) =~= ended + after);
    lemma_gather_behind_gap(ended, after);
    assert(gather(ended).0 =~= seq![meant_all(ps)]);
    assert(command_words(spelled_all(ps) + tail) =~= seq![meant_all(ps)] + command_words(rest));
    let gaps = Seq::<Mark>::empty().push(Mark::Gap);
    lemma_gather_push(Seq::empty(), Mark::Gap);
    lemma_gather_behind_gap(gaps, after);
    assert(gaps + after =~= seq![Mark::Gap] + after);
    assert(command_words(tail) =~= command_words(rest));
}

/// What is not closed ends with the line: the rest of it belongs to the word;
/// a backslash with nothing behind it stands for nothing.
pub proof fn law_open_quotes_end_with_the_line(ps: Seq<Part>, w: Seq<char>)
    requires
        can_spell_all(ps),
    ensures
        can_spell(Part::Single(w)) ==> command_words(spelled_all(ps) + (seq!['\''] + w)) == seq![
            meant_all(ps) + w,
        ],
        can_spell(Part::Double(w)) ==> command_words(spelled_all(ps) + (seq!['"'] + w)) == seq![
            meant_all(ps) + w,
        ],
        can_spell(Part::Double(w)) ==> command_words(spelled_all(ps) + (seq!['"'] + w.push('\\')))
            == seq![meant_all(ps) + w],
        ps.len() > 0 ==> command_words(spelled_all(ps) + seq!['\\']) == seq![meant_all(ps)],
        command_words(seq!['\\']) == Seq::<Seq<char>>::empty(),
{
    let ms = word_marks(ps);
    lemma_gather_push(ms, Mark::Quoted);
    lemma_gather_literals(ms.push(Mark::Quoted), w);
    assert(ms + (seq![Mark::Quoted] + literals(w)) =~= ms.push(Mark::Quoted) + literals(w));
    if can_spell(Part::Single(w)) {
        let s = seq!['\''] + w;
        lemma_word(ps, s);
        lemma_single_marks(w, Seq::empty());
        assert(s[0] == '\'' && s.drop_first() =~= w);
        assert(open_word(ms) + w =~= meant_all(ps) + w);
        assert(command_words(spelled_all(ps) + s) =~= seq![meant_all(ps) + w]);
    }
    if can_spell(Part::Double(w)) {
        let s = seq!['"'] + w;
        lemma_word(ps, s);
        lemma_double_marks(w, Seq::empty());
        assert(s[0] == '"' && s.drop_first() =~= w);
        assert(open_word(ms) + w =~= meant_all(ps) + w);
        assert(command_words(spelled_all(ps) + s) =~= seq![meant_all(ps) + w]);
        let cut = seq!['"'] + w.push('\\');
        lemma_word(ps, cut);
        assert(cut[0] == '"' && cut.drop_first() =~= w.push('\\'));
        assert(command_words(spelled_all(ps) + cut) =~= seq![meant_all(ps) + w]);
    }
    let s = seq!['\\'];
    assert(s.drop_first() =~= Seq::<char>::empty());
    assert(marks(s, Quote::Plain) =~= Seq::<Mark>::empty());
    if ps.len() > 0 {
        lemma_word(ps, s);
        assert(ms + marks(s, Quote::Plain) =~= ms);
        assert(command_words(spelled_all(ps) + s) =~= seq![meant_all(ps)]);
    }
}

/// The bytes that a password cannot be made of alone.
pub proof fn law_ascii_white_space(b: u8)
    ensures
        ascii_white_space(b) <==> b == 9 || b == 10 || b == 12 || b == 13 || b == 32,
{
}

/// One printed byte that is no white space makes a password, wherever it
/// stands; a command that failed gives none, whatever it printed.
pub proof fn law_printed_password_counts(
    status: Seq<char>,
    before: Seq<u8>,
    b: u8,
    after: Seq<u8>,
    blanks: Seq<u8>,
)
    requires
        forall|i: int|
            0 <= i < blanks.len() ==> seq![9u8, 10, 12, 13, 32].contains(#[trigger] blanks[i]),
    ensures
        !seq![9u8, 10, 12, 13, 32].contains(b) ==> password_verdict(
            true,
            status,
            before + seq![b] + after,
        ) == Ok::<(), Seq<char>>(()),
        password_verdict(true, status, blanks) == Err::<(), Seq<char>>(
            "password command produced no output"@,
        ),
        password_verdict(false, status, before) == Err::<(), Seq<char>>(
            "password command failed with "@ + status,
        ),
{
    let set = seq![9u8, 10, 12, 13, 32];
    let all = before + seq![b] + after;
    assert(set[0] == 9 && set[1] == 10 && set[2] == 12 && set[3] == 13 && set[4] == 32);
    assert(all[before.len() as int] == b);
    if !set.contains(b) {
        assert(!ascii_white_space(all[before.len() as int]));
    }
    assert forall|i: int| 0 <= i < blanks.len() implies ascii_white_space(#[trigger] blanks[i]) by {
        assert(set.contains(blanks[i]));
    }
}

/// A line of words that need no quotes, each behind one space, has these words.
pub proof fn law_bare_words_are_the_words(word: Seq<char>, rest: Seq<char>)
    requires
        can_spell(Part::Bare(word)),
    ensures
        command_words(word) == seq![word],
        command_words(word + (seq![' '] + rest)) == seq![word] + command_words(rest),
{
    let ps = seq![Part::Bare(word)];
    assert(ps.drop_last() =~= Seq::<Part>::empty());
    assert(spelled_all(ps.drop_last()) == Seq::<char>::empty());
    assert(meant_all(ps.drop_last()) == Seq::<char>::empty());
    assert(spelled_all(ps) =~= word);
    assert(meant_all(ps) =~= word);
    law_words_are_what_their_parts_mean(ps, ' ', rest);
}

} // verus!
