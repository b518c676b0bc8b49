use vstd::prelude::*;
use vstd::slice::slice_subrange;
use vstd::string::*;

use crate::errors::{MakerError, MakerErrorType};
use crate::lexer::{chars_of, string_of};
use crate::structures::{CodePiece, Command};

verus! {

/// What `str::to_lowercase` makes of `s`.
pub uninterp spec fn lower_of(s: Seq<char>) -> Seq<char>;

/// Relies on `str::to_lowercase`: the result depends on the characters alone.
#[verifier::external_body]
fn lowercase(s: &str) -> (r: String)
    ensures
        r@ == lower_of(s@),
{
    s.to_lowercase()
}

pub open spec fn is_space(c: char) -> bool {
    c == ' ' || c == '\t' || c == '\n' || c == '\r'
}

/// The first index from `i` that holds no space.
pub open spec fn skip_spaces(s: Seq<char>, i: nat) -> nat
    decreases s.len() - i,
{
    if i < s.len() && is_space(s[i as int]) {
        skip_spaces(s, i + 1)
    } else {
        i
    }
}

/// The first index from `i` that holds a space, or the length.
pub open spec fn word_end(s: Seq<char>, i: nat) -> nat
    decreases s.len() - i,
{
    if i < s.len() && !is_space(s[i as int]) {
        word_end(s, i + 1)
    } else {
        i
    }
}

/// The first whitespace-separated word of `s`, empty if there is none.
pub open spec fn first_word(s: Seq<char>) -> Seq<char> {
    let start = skip_spaces(s, 0);
    s.subrange(start as int, word_end(s, start) as int)
}

/// The command a message names: after the prefix, the first word of the rest in
/// lower case; none if the message does not begin with the prefix.
pub open spec fn command_name_of(content: Seq<char>, prefix: Seq<char>) -> Option<Seq<char>> {
    if prefix.len() <= content.len() && content.subrange(0, prefix.len() as int) == prefix {
        Some(first_word(lower_of(content.skip(prefix.len() as int))))
    } else {
        None
    }
}

/// The first whitespace-separated word of an already lower-cased text.
pub fn first_word_of(text: &String) -> (r: String)
    ensures
        r@ == first_word(text@),
{
    let s = chars_of(text.as_str());
    let n = s.len();
    let mut i: usize = 0;
    while i < n && (s[i] == ' ' || s[i] == '\t' || s[i] == '\n' || s[i] == '\r')
        invariant
            n == s@.len(),
            s@ == text@,
            i <= n,
            skip_spaces(s@, 0) == skip_spaces(s@, i as nat),
        decreases n - i,
    {
        i = i + 1;
    }
    let start = i;
    while i < n && !(s[i] == ' ' || s[i] == '\t' || s[i] == '\n' || s[i] == '\r')
        invariant
            n == s@.len(),
            s@ == text@,
            start <= i <= n,
            start == skip_spaces(s@, 0),
            word_end(s@, start as nat) == word_end(s@, i as nat),
        decreases n - i,
    {
        i = i + 1;
    }
    string_of(slice_subrange(s.as_slice(), start, i))
}

/// The name of the command `content` calls for with `prefix`, if it begins with it.
pub fn command_name(content: &String, prefix: &String) -> (r: Option<String>)
    ensures
        match r {
            Some(name) => command_name_of(content@, prefix@) == Some(name@),
            None => command_name_of(content@, prefix@) is None,
        },
{
    let c = chars_of(content.as_str());
    let p = chars_of(prefix.as_str());
    if p.len() > c.len() {
        return None;
    }
    let mut k: usize = 0;
    while k < p.len()
        invariant
            p@ == prefix@,
            c@ == content@,
            p@.len() <= c@.len(),
            k <= p@.len(),
            forall|m: int| 0 <= m < k ==> c@[m] == p@[m],
        decreases p@.len() - k,
    {
        if c[k] != p[k] {
            assert(content@.subrange(0, prefix@.len() as int)[k as int] != prefix@[k as int]);
            return None;
        }
        k = k + 1;
    }
    assert(content@.subrange(0, prefix@.len() as int) =~= prefix@);
    let rest = content.as_str().substring_char(p.len(), c.len());
    assert(rest@ =~= content@.skip(prefix@.len() as int));
    let lowered = lowercase(rest);
    Some(first_word_of(&lowered))
}

/// The index of the first command named `name`.
pub fn find_command(commands: &Vec<Command>, name: &String) -> (r: Option<usize>)
    ensures
        match r {
            Some(k) => k < commands@.len() && commands@[k as int].name@ == name@ && forall|j: int|
                0 <= j < k ==> (#[trigger] commands@[j]).name@ != name@,
            None => forall|j: int| 0 <= j < commands@.len() ==> (#[trigger] commands@[j]).name@ != name@,
        },
{
    let mut k: usize = 0;
    while k < commands.len()
        invariant
            k <= commands@.len(),
            forall|j: int| 0 <= j < k ==> (#[trigger] commands@[j]).name@ != name@,
        decreases commands@.len() - k,
    {
        if commands[k].name == *name {
            return Some(k);
        }
        k = k + 1;
    }
    None
}

/// The index of the first code piece with identifier `id`.
pub fn find_code_piece(code_pieces: &Vec<CodePiece>, id: u8) -> (r: Option<usize>)
    ensures
        match r {
            Some(k) => k < code_pieces@.len() && code_pieces@[k as int].id == id && forall|j: int|
                0 <= j < k ==> (#[trigger] code_pieces@[j]).id != id,
            None => forall|j: int| 0 <= j < code_pieces@.len() ==> (#[trigger] code_pieces@[j]).id != id,
        },
{
    let mut k: usize = 0;
    while k < code_pieces.len()
        invariant
            k <= code_pieces@.len(),
            forall|j: int| 0 <= j < k ==> (#[trigger] code_pieces@[j]).id != id,
        decreases code_pieces@.len() - k,
    {
        if code_pieces[k].id == id {
            return Some(k);
        }
        k = k + 1;
    }
    None
}

/// The first command named `name` and the first code piece it refers to.
pub open spec fn selected(commands: Seq<Command>, code_pieces: Seq<CodePiece>, name: Seq<char>) -> Option<
    (int, Option<int>),
> {
    if exists|j: int| 0 <= j < commands.len() && (#[trigger] commands[j]).name@ == name {
        let k = choose|j: int|
            0 <= j < commands.len() && (#[trigger] commands[j]).name@ == name && forall|i: int|
                0 <= i < j ==> (#[trigger] commands[i]).name@ != name;
        let id = commands[k].code_id;
        if exists|j: int| 0 <= j < code_pieces.len() && (#[trigger] code_pieces[j]).id == id {
            Some(
                (
                    k,
                    Some(
                        choose|j: int|
                            0 <= j < code_pieces.len() && (#[trigger] code_pieces[j]).id == id
                                && forall|i: int| 0 <= i < j ==> (#[trigger] code_pieces[i]).id != id,
                    ),
                ),
            )
        } else {
            Some((k, None))
        }
    } else {
        None
    }
}

/// The code piece that a message calls for: none when it does not begin with the
/// prefix or names no command; an error when the command's code piece is missing.
pub fn select_code(
    content: &String,
    prefix: &String,
    commands: &Vec<Command>,
    code_pieces: &Vec<CodePiece>,
) -> (r: Result<Option<usize>, MakerError>)
    ensures
        match command_name_of(content@, prefix@) {
            None => r == Ok::<Option<usize>, MakerError>(None),
            Some(name) => match selected(commands@, code_pieces@, name) {
                None => r == Ok::<Option<usize>, MakerError>(None),
                Some((_, Some(p))) => r == Ok::<Option<usize>, MakerError>(Some(p as usize)),
                Some((_, None)) => r matches Err(e) && e.error_type == MakerErrorType::UnknownDatabase,
            },
        },
{
    let name = match command_name(content, prefix) {
        Some(name) => name,
        None => return Ok(None),
    };
    match find_command(commands, &name) {
        None => Ok(None),
        Some(k) => {
            let ghost cs = commands@;
            assert(forall|j: int| 0 <= j < k ==> (#[trigger] cs[j]).name@ != name@);
            let id = commands[k].code_id;
            match find_code_piece(code_pieces, id) {
                Some(p) => Ok(Some(p)),
                None => {
                    proof {
                        reveal_strlit("The command's code piece does not exist");
                    }
                    Err(
                        MakerError::new(
                            "The command's code piece does not exist".to_owned(),
                            MakerErrorType::UnknownDatabase,
                        ),
                    )
                },
            }
        },
    }
}

} // verus!
