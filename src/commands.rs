use vstd::prelude::*;
use crate::text::{trim, trimmed_of};

verus! {

/// What one console line asks for.
pub enum InputAction {
    /// Show the selection and the current wallpaper.
    PrintCurrent,
    /// Edit the selection as text.
    EditCurrent,
    /// Select the root alone.
    SetRoot,
    /// Replace the selection by the folders a query finds.
    ChooseFolders(String),
    /// Scan the root again.
    ReloadWallpapers,
    /// Add the folders a query finds to the selection; holds the whole
    /// trimmed line, which starts with `a `.
    AppendSelection(String),
    /// Do nothing.
    Nop,
}

/// The action that the trimmed line `t` asks for.
pub open spec fn action_for(t: Seq<char>, r: InputAction) -> bool {
    if t == seq!['.'] || t == seq!['/'] {
        r is SetRoot
    } else if t == seq!['c'] || t == seq!['p'] {
        r is PrintCurrent
    } else if t == seq!['r'] {
        r is ReloadWallpapers
    } else if t == seq!['e'] {
        r is EditCurrent
    } else if t.len() >= 2 && t[0] == 'a' && t[1] == ' ' {
        r is AppendSelection && r->AppendSelection_0@ == t
    } else if t.len() == 0 {
        r is Nop
    } else {
        r is ChooseFolders && r->ChooseFolders_0@ == t
    }
}

/// Reads one console line, with surrounding white space ignored.
pub fn parse_command(line: &str) -> (r: InputAction)
    ensures
        exists|t: Seq<char>| trimmed_of(line@, t) && action_for(t, r),
{
    let t = trim(line);
    let n = t.unicode_len();
    let first = if n > 0 {
        t.get_char(0)
    } else {
        ' '
    };
    let r = if n == 1 && (first == '.' || first == '/') {
        InputAction::SetRoot
    } else if n == 1 && (first == 'c' || first == 'p') {
        InputAction::PrintCurrent
    } else if n == 1 && first == 'r' {
        InputAction::ReloadWallpapers
    } else if n == 1 && first == 'e' {
        InputAction::EditCurrent
    } else if n >= 2 && first == 'a' && t.get_char(1) == ' ' {
        InputAction::AppendSelection(t.to_owned())
    } else if n == 0 {
        InputAction::Nop
    } else {
        InputAction::ChooseFolders(t.to_owned())
    };
    proof {
        let tv = t@;
        if n == 1 {
            assert(tv == seq!['.'] <==> first == '.') by {
                if first == '.' {
                    assert(tv =~= seq!['.']);
                }
            }
            assert(tv == seq!['/'] <==> first == '/') by {
                if first == '/' {
                    assert(tv =~= seq!['/']);
                }
            }
            assert(tv == seq!['c'] <==> first == 'c') by {
                if first == 'c' {
                    assert(tv =~= seq!['c']);
                }
            }
            assert(tv == seq!['p'] <==> first == 'p') by {
                if first == 'p' {
                    assert(tv =~= seq!['p']);
                }
            }
            assert(tv == seq!['r'] <==> first == 'r') by {
                if first == 'r' {
                    assert(tv =~= seq!['r']);
                }
            }
            assert(tv == seq!['e'] <==> first == 'e') by {
                if first == 'e' {
                    assert(tv =~= seq!['e']);
                }
            }
        } else {
            assert(seq!['.'].len() == 1);
            assert(seq!['/'].len() == 1);
            assert(seq!['c'].len() == 1);
            assert(seq!['p'].len() == 1);
            assert(seq!['r'].len() == 1);
            assert(seq!['e'].len() == 1);
        }
        assert(action_for(tv, r));
    }
    r
}

/// The query of an append command: its text after the leading two
/// characters (`a `), without surrounding white space.
pub fn append_query(command: &str) -> (r: &str)
    requires
        command@.len() >= 2,
    ensures
        trimmed_of(command@.subrange(2, command@.len() as int), r@),
{
    let n = command.unicode_len();
    trim(command.substring_char(2, n))
}

} // verus!
