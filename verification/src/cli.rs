//! The command line: which argument names the file to open, and where an
//! option and the value after it stand.

use vstd::prelude::*;
use crate::text::{chars_of, has_prefix, str_equal, str_is};

verus! {

/// The arguments as characters.
pub open spec fn arg_views(args: Seq<String>) -> Seq<Seq<char>> {
    args.map_values(|a: String| a@)
}

/// `--setpos`, whose value is the window position.
pub open spec fn setpos_option() -> Seq<char> {
    seq!['-', '-', 's', 'e', 't', 'p', 'o', 's']
}

/// `--debug-theme`, whose value names the theme to print.
pub open spec fn debug_theme_option() -> Seq<char> {
    seq!['-', '-', 'd', 'e', 'b', 'u', 'g', '-', 't', 'h', 'e', 'm', 'e']
}

/// An option that is followed by a value.
pub open spec fn takes_value(a: Seq<char>) -> bool {
    a == setpos_option() || a == debug_theme_option()
}

/// An argument that begins with `--`.
pub open spec fn is_option(a: Seq<char>) -> bool {
    seq!['-', '-'].is_prefix_of(a)
}

/// The first file argument at or after `i`: arguments are walked in order,
/// the value after `--setpos` or `--debug-theme` is passed over (`skip`
/// says that `args[i]` is such a value), and so is every other argument
/// that begins with `--`.
pub open spec fn file_arg_from(args: Seq<Seq<char>>, i: int, skip: bool) -> Option<int>
    decreases args.len() - i,
{
    if i < 0 || i >= args.len() {
        None
    } else if skip {
        file_arg_from(args, i + 1, false)
    } else if takes_value(args[i]) {
        file_arg_from(args, i + 1, true)
    } else if !is_option(args[i]) {
        Some(i)
    } else {
        file_arg_from(args, i + 1, false)
    }
}

/// The first index at or after `i` where `name` stands.
pub open spec fn position_from(args: Seq<Seq<char>>, name: Seq<char>, i: int) -> Option<int>
    decreases args.len() - i,
{
    if i < 0 || i >= args.len() {
        None
    } else if args[i] == name {
        Some(i)
    } else {
        position_from(args, name, i + 1)
    }
}

/// The index of the value given after the first `name`: the next
/// argument, when there is one.
pub open spec fn value_index(args: Seq<Seq<char>>, name: Seq<char>) -> Option<int> {
    match position_from(args, name, 0) {
        Some(p) => if p < args.len() - 1 {
            Some(p + 1)
        } else {
            None
        },
        None => None,
    }
}

/// The index of the argument that names the file to open: the first after
/// the program's own name that is not an option (`--` and more) nor the
/// value of `--setpos` or `--debug-theme`.
pub fn file_argument(args: &Vec<String>) -> (r: Option<usize>)
    ensures
        r is None <==> file_arg_from(arg_views(args@), 1, false) is None,
        r matches Some(i) ==> file_arg_from(arg_views(args@), 1, false) == Some(i as int) && 1 <= i
            < args@.len(),
{
    let ghost a = arg_views(args@);
    let setpos = ['-', '-', 's', 'e', 't', 'p', 'o', 's'];
    let debug = ['-', '-', 'd', 'e', 'b', 'u', 'g', '-', 't', 'h', 'e', 'm', 'e'];
    let dashes = ['-', '-'];
    assert(setpos@ =~= setpos_option());
    assert(debug@ =~= debug_theme_option());
    assert(dashes@ =~= seq!['-', '-']);
    let mut skip = false;
    let mut i: usize = 1;
    while i < args.len()
        invariant
            1 <= i,
            a == arg_views(args@),
            setpos@ == setpos_option(),
            debug@ == debug_theme_option(),
            dashes@ == seq!['-', '-'],
            file_arg_from(a, 1, false) == file_arg_from(a, i as int, skip),
        decreases args@.len() - i,
    {
        assert(a[i as int] == args@[i as int]@);
        if skip {
            skip = false;
        } else if str_is(args[i].as_str(), &setpos) || str_is(args[i].as_str(), &debug) {
            skip = true;
        } else {
            let cs = chars_of(args[i].as_str());
            if !has_prefix(cs.as_slice(), &dashes) {
                return Some(i);
            }
        }
        i += 1;
    }
    None
}

/// The index of the first argument equal to `name`, if any.
pub fn option_position(args: &Vec<String>, name: &str) -> (r: Option<usize>)
    ensures
        r is None <==> position_from(arg_views(args@), name@, 0) is None,
        r matches Some(i) ==> position_from(arg_views(args@), name@, 0) == Some(i as int) && i
            < args@.len(),
{
    let ghost a = arg_views(args@);
    let mut i: usize = 0;
    while i < args.len()
        invariant
            a == arg_views(args@),
            position_from(a, name@, 0) == position_from(a, name@, i as int),
        decreases args@.len() - i,
    {
        assert(a[i as int] == args@[i as int]@);
        if str_equal(args[i].as_str(), name) {
            return Some(i);
        }
        i += 1;
    }
    None
}

/// The index of the value given after the first `name`: the argument that
/// follows it, when there is one.
pub fn option_value(args: &Vec<String>, name: &str) -> (r: Option<usize>)
    ensures
        r is None <==> value_index(arg_views(args@), name@) is None,
        r matches Some(i) ==> value_index(arg_views(args@), name@) == Some(i as int) && i
            < args@.len(),
{
    match option_position(args, name) {
        Some(p) => if p < args.len() - 1 {
            Some(p + 1)
        } else {
            None
        },
        None => None,
    }
}

} // verus!
