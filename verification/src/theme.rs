//! Reading the desktop's colour scheme.
use vstd::prelude::*;

use crate::text::{contains_text, occurs_at, text_contains};

verus! {

/// Whether the output of `gsettings get org.gnome.desktop.interface
/// color-scheme` asks for a dark theme: the command succeeded and printed
/// `prefer-dark`.
pub open spec fn is_dark_of(success: bool, stdout: Seq<char>) -> bool {
    success && contains_text(stdout, "prefer-dark"@)
}

/// Whether the colour-scheme query, which ended with `success` and printed
/// `stdout`, asks for a dark theme.
pub fn is_dark_output(success: bool, stdout: &str) -> (dark: bool)
    ensures
        dark == is_dark_of(success, stdout@),
        dark <==> success && exists|i: int|
            0 <= i && i + 11 <= stdout@.len() && #[trigger] stdout@.subrange(i, i + 11)
                == "prefer-dark"@,
{
    proof {
        dark_only_with_prefer_dark(success, stdout@);
    }
    success && text_contains(stdout, "prefer-dark")
}

/// The theme is dark exactly when the query succeeded and printed
/// `prefer-dark`: any other output (`'default'`, `'prefer-light'`, ...) or a
/// failed query leaves it light.
pub proof fn dark_only_with_prefer_dark(success: bool, stdout: Seq<char>)
    ensures
        is_dark_of(success, stdout) ==> success,
        is_dark_of(success, stdout) <==> success && exists|i: int|
            0 <= i && i + 11 <= stdout.len() && #[trigger] stdout.subrange(i, i + 11)
                == "prefer-dark"@,
        !(exists|i: int|
            0 <= i && i + 11 <= stdout.len() && #[trigger] stdout.subrange(i, i + 11)
                == "prefer-dark"@) ==> !is_dark_of(success, stdout),
{
    reveal_strlit("prefer-dark");
    let n = "prefer-dark"@;
    assert(n.len() == 11);
    if contains_text(stdout, n) {
        let i = choose|i: int| occurs_at(stdout, n, i);
        assert(stdout.subrange(i, i + 11) == n);
    }
    if exists|i: int| 0 <= i && i + 11 <= stdout.len() && #[trigger] stdout.subrange(i, i + 11) == n {
        let i = choose|i: int| 0 <= i && i + 11 <= stdout.len() && #[trigger] stdout.subrange(i, i + 11) == n;
        assert(occurs_at(stdout, n, i));
    }
}

} // verus!
