//! The home directory: where it is, and when it may be reset.

use vstd::prelude::*;

use crate::paths;
use crate::paths::join_path;
use crate::text;
use crate::text::{chars_of, owned, pieces_of, same_text, text_begins_with, trimmed};
use crate::tools;

verus! {

/// The home directory, where the variables tell it: `LAZAR_HOME` unless it is empty, or the
/// directory `lazar` below `HOME`.
pub open spec fn home_of(lazar_home: Option<Seq<char>>, home: Option<Seq<char>>) -> Option<
    Seq<char>,
> {
    if lazar_home is Some && (lazar_home->0).len() > 0 {
        lazar_home
    } else {
        match home {
            Some(h) => Some(paths::joined(h, "lazar"@)),
            None => None,
        }
    }
}

/// The home directory, where the variables tell it.
pub fn lazar_home(lazar_home_var: Option<&str>, home_var: Option<&str>) -> (r: Option<String>)
    ensures
        match r {
            Some(h) => home_of(tools::var_text(lazar_home_var), tools::var_text(home_var)) == Some(
                h@,
            ),
            None => home_of(tools::var_text(lazar_home_var), tools::var_text(home_var)) is None,
        },
{
    match lazar_home_var {
        Some(p) => {
            if !p.is_empty() {
                return Some(owned(p));
            }
        },
        None => {},
    }
    match home_var {
        Some(h) => Some(join_path(h, "lazar")),
        None => None,
    }
}

/// The steps of a path that lead anywhere.
pub open spec fn real_steps(pieces: Seq<Seq<char>>) -> Seq<Seq<char>>
    decreases pieces.len(),
{
    if pieces.len() == 0 {
        Seq::empty()
    } else if pieces.last().len() == 0 || pieces.last() == "."@ {
        real_steps(pieces.drop_last())
    } else {
        real_steps(pieces.drop_last()).push(pieces.last())
    }
}

/// The steps of a path from the root. Repeated slashes and single dots lead nowhere.
pub open spec fn path_steps(path: Seq<char>) -> Seq<Seq<char>> {
    real_steps(text::pieces(path, '/'))
}

/// The path starts at the root.
pub open spec fn is_absolute(path: Seq<char>) -> bool {
    text::begins_with(path, "/"@)
}

/// The two paths start at the root and take the same steps.
pub open spec fn same_place(a: Seq<char>, b: Seq<char>) -> bool {
    is_absolute(a) && is_absolute(b) && path_steps(a) == path_steps(b)
}

/// Why a directory must not be reset, if it must not.
pub open spec fn reset_error(home: Seq<char>, user_home: Option<Seq<char>>) -> Option<Seq<char>> {
    if home.len() == 0 {
        Some("refusing to reset an empty LAZAR_HOME"@)
    } else if !is_absolute(home) {
        Some("refusing to reset relative LAZAR_HOME: "@ + home)
    } else if path_steps(home).len() == 0 {
        Some("refusing to reset filesystem root: "@ + home)
    } else if user_home is Some && same_place(user_home->0, home) {
        Some("refusing to reset HOME directly: "@ + home)
    } else {
        None
    }
}

/// The user's home directory is never reset, however it is spelled; nor is the root; nor a
/// directory that is not named from the root.
pub proof fn law_reset_spares(home: Seq<char>, user_home: Seq<char>)
    ensures
        same_place(user_home, home) ==> reset_error(home, Some(user_home)) is Some,
        !is_absolute(home) ==> reset_error(home, Some(user_home)) is Some,
        path_steps(home).len() == 0 ==> reset_error(home, Some(user_home)) is Some,
{
}

fn steps_of(path: &str) -> (r: Vec<String>)
    ensures
        text::texts(r@) == path_steps(path@),
{
    let pieces = pieces_of(chars_of(path).as_slice(), '/');
    let ghost all = text::texts(pieces@);
    let mut out: Vec<String> = Vec::new();
    let mut i: usize = 0;
    assert(all.take(0) =~= Seq::<Seq<char>>::empty());
    assert(text::texts(out@) =~= Seq::<Seq<char>>::empty());
    while i < pieces.len()
        invariant
            i <= pieces@.len(),
            all == text::texts(pieces@),
            text::texts(out@) == real_steps(all.take(i as int)),
        decreases pieces@.len() - i,
    {
        assert(all.take(i + 1).drop_last() =~= all.take(i as int));
        assert(all.take(i + 1).last() == pieces@[i as int]@);
        let ghost before = text::texts(out@);
        if !pieces[i].as_str().is_empty() && !same_text(pieces[i].as_str(), ".") {
            out.push(pieces[i].clone());
            assert(text::texts(out@) =~= before.push(pieces@[i as int]@));
        }
        i += 1;
    }
    assert(all.take(all.len() as int) =~= all);
    out
}

fn same_texts(a: &Vec<String>, b: &Vec<String>) -> (r: bool)
    ensures
        r == (text::texts(a@) == text::texts(b@)),
{
    if a.len() != b.len() {
        assert(text::texts(a@).len() != text::texts(b@).len());
        return false;
    }
    let mut i: usize = 0;
    while i < a.len()
        invariant
            i <= a@.len() == b@.len(),
            forall|k: int| 0 <= k < i ==> a@[k]@ == b@[k]@,
        decreases a@.len() - i,
    {
        if !same_text(a[i].as_str(), b[i].as_str()) {
            assert(text::texts(a@)[i as int] != text::texts(b@)[i as int]);
            return false;
        }
        i += 1;
    }
    assert(text::texts(a@) =~= text::texts(b@));
    true
}

fn refusal(reason: &str, home: &str) -> (r: Result<(), String>)
    ensures
        r is Err,
        r->Err_0@ == reason@ + home@,
{
    let mut e = owned(reason);
    e.append(home);
    Err(e)
}

/// The directory may be reset. `user_home` is the value of `HOME`.
pub fn validate_reset_home(home: &str, user_home: Option<&str>) -> (r: Result<(), String>)
    ensures
        match r {
            Ok(_) => reset_error(home@, tools::var_text(user_home)) is None,
            Err(e) => reset_error(home@, tools::var_text(user_home)) == Some(e@),
        },
{
    if home.is_empty() {
        return Err(owned("refusing to reset an empty LAZAR_HOME"));
    }
    if !text_begins_with(home, "/") {
        return refusal("refusing to reset relative LAZAR_HOME: ", home);
    }
    let steps = steps_of(home);
    if steps.len() == 0 {
        return refusal("refusing to reset filesystem root: ", home);
    }
    match user_home {
        Some(u) => {
            if text_begins_with(u, "/") && same_texts(&steps_of(u), &steps) {
                return refusal("refusing to reset HOME directly: ", home);
            }
        },
        None => {},
    }
    Ok(())
}

/// The directories that a reset empties.
pub const RESET_DIRS: [&'static str; 5] = ["skills", "hooks", "memory", "workspace", "logs"];

/// The answer confirms a reset.
pub open spec fn confirms(answer: Seq<char>) -> bool {
    let a = text::trim(answer);
    a == "y"@ || a == "Y"@ || a == "yes"@
}

/// The answer confirms a reset.
pub fn is_confirmation(answer: &str) -> (r: bool)
    ensures
        r == confirms(answer@),
{
    let a = trimmed(answer);
    same_text(a.as_str(), "y") || same_text(a.as_str(), "Y") || same_text(a.as_str(), "yes")
}

} // verus!
