//! Making the name of an uploaded file safe to store under.

use std::path::Path;
use vstd::prelude::*;

verus! {

broadcast use vstd::string::group_string_axioms;

/// The characters that a stored file name must not hold.
pub open spec fn is_reserved(c: char) -> bool {
    c == '/' || c == '\\' || c == ':' || c == '*' || c == '?' || c == '"' || c == '<' || c == '>'
        || c == '|'
}

/// A character as it is stored: an underscore in place of a reserved one.
pub open spec fn stored_char(c: char) -> char {
    if is_reserved(c) {
        '_'
    } else {
        c
    }
}

/// A name as it is stored: character by character, same length.
pub open spec fn stored_name(name: Seq<char>) -> Seq<char> {
    Seq::new(name.len(), |i: int| stored_char(name[i]))
}

/// The text holds the part somewhere, in one piece.
pub open spec fn is_part_of(part: Seq<char>, text: Seq<char>) -> bool {
    exists|i: int|
        0 <= i && i + part.len() <= text.len() && #[trigger] text.subrange(i, i + part.len())
            == part
}

/// A name that `sanitize_filename` may keep of `filename`: a part of it
/// other than `..`, or `unnamed`.
pub open spec fn is_kept_name(name: Seq<char>, filename: Seq<char>) -> bool {
    name == "unnamed"@ || (name != ".."@ && is_part_of(name, filename))
}

/// `std::path::Path::file_name` on the path that `filename` spells: the
/// final component of the path, or `None` where it has none. std documents
/// that the component is one of the path, so a part of its text, and that
/// the answer is `None` where the path ends in `..`, so the component is not
/// `..`. Where the component starts depends on the platform, and that is
/// left open.
#[verifier::external_body]
fn final_component(filename: &str) -> (name: Option<String>)
    ensures
        name matches Some(text) ==> text@ != ".."@ && is_part_of(text@, filename@),
{
    let name = Path::new(filename).file_name()?;
    Some(name.to_str()?.to_string())
}

/// Decides whether a character is reserved.
pub fn is_reserved_char(c: char) -> (r: bool)
    ensures
        r == is_reserved(c),
{
    c == '/' || c == '\\' || c == ':' || c == '*' || c == '?' || c == '"' || c == '<' || c == '>'
        || c == '|'
}

/// Replaces every reserved character of `name` by an underscore and keeps
/// the others, dots included.
pub fn replace_reserved(name: &str) -> (clean: String)
    ensures
        clean@ == stored_name(name@),
{
    let mut clean: String = String::new();
    for c in it: name.chars()
        invariant
            it.seq() == name@,
            clean@ == stored_name(name@.take(it.index() as int)),
    {
        let ghost done = name@.take(it.index() as int);
        let stored: char = if is_reserved_char(c) {
            '_'
        } else {
            c
        };
        clean.push(stored);
        proof {
            assert(stored_name(name@.take(it.index() + 1)) =~= stored_name(done).push(stored));
        }
    }
    proof {
        assert(name@.take(name@.len() as int) =~= name@);
    }
    clean
}

/// A name is stored as `..` only if it is `..`: dots are kept, and no other
/// character is stored as a dot.
pub proof fn lemma_stored_name_keeps_dots(name: Seq<char>)
    ensures
        stored_name(name) == ".."@ <==> name == ".."@,
{
    reveal_strlit("..");
    let dots = ".."@;
    assert(dots.len() == 2 && dots[0] == '.' && dots[1] == '.');
    assert(stored_name(name).len() == name.len());
    if stored_name(name) == dots {
        assert(name.len() == 2);
        assert(stored_name(name)[0] == dots[0]);
        assert(stored_name(name)[1] == dots[1]);
        assert(name =~= dots);
    }
    if name == dots {
        assert(stored_name(name) =~= dots);
    }
}

/// Reduces an uploaded file's name to the final component of the path it
/// spells, `unnamed` where it has none, with every reserved character
/// replaced: the result holds no separator and is not `..`, so it names
/// neither a directory nor the parent.
pub fn sanitize_filename(filename: &str) -> (clean: String)
    ensures
        forall|i: int| 0 <= i < clean@.len() ==> !is_reserved(#[trigger] clean@[i]),
        clean@ != ".."@,
        exists|name: Seq<char>| #[trigger]
            is_kept_name(name, filename@) && clean@ == stored_name(name),
{
    match final_component(filename) {
        Some(name) => {
            let clean: String = replace_reserved(name.as_str());
            proof {
                lemma_stored_name_keeps_dots(name@);
                assert(is_kept_name(name@, filename@));
            }
            clean
        },
        None => {
            let clean: String = replace_reserved("unnamed");
            proof {
                lemma_stored_name_keeps_dots("unnamed"@);
                reveal_strlit("unnamed");
                reveal_strlit("..");
                assert(is_kept_name("unnamed"@, filename@));
            }
            clean
        },
    }
}

} // verus!
