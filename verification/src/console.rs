//! How console lines and load-error lines are shown: which text and which
//! colour.

use vstd::prelude::*;
use crate::text::{chars_of, starts_with_at, strip_range, trim, CharClass};
use crate::theme::{Rgb, Shade};

verus! {

/// The text of a console line: lines that came from stderr carry the prefix
/// `@@STDERR:`, which is not shown.
pub open spec fn shown_text(line: Seq<char>) -> Seq<char> {
    if "@@STDERR:"@.is_prefix_of(line) {
        line.skip("@@STDERR:"@.len() as int)
    } else {
        line
    }
}

pub open spec fn starts(s: Seq<char>, p: &str) -> bool {
    p@.is_prefix_of(s)
}

/// A cargo progress line, indented by three or four spaces.
pub open spec fn is_progress(s: Seq<char>) -> bool {
    ||| starts(s, "   Compiling") || starts(s, "    Compiling")
    ||| starts(s, "   Downloading") || starts(s, "    Downloading")
    ||| starts(s, "   Updating") || starts(s, "    Updating")
    ||| starts(s, "   Running") || starts(s, "    Running")
    ||| starts(s, "   Fetching") || starts(s, "    Fetching")
}

/// The palette colour of a console line; the first rule that applies wins.
pub open spec fn line_shade(line: Seq<char>) -> Shade {
    let s = shown_text(line);
    if starts(s, "error[") || starts(s, "error: ") || starts(line, "❌") {
        Shade::Error
    } else if starts(s, "warning[") || starts(s, "warning: ") || starts(line, "⚠") {
        Shade::Warning
    } else if starts(s, "   Finished") || starts(s, "    Finished") || starts(line, "✅")
        || starts(s, "test result: ok") {
        Shade::Success
    } else if is_progress(s) {
        Shade::Dim
    } else if starts(line, "──") || starts(line, "■") || starts(line, "🚀") {
        Shade::Section
    } else if starts(s, "note:") || starts(s, "help:") || starts(s, "  -->") {
        Shade::Dim
    } else {
        Shade::Default
    }
}

/// A text that differs from `p` at one of `p`'s positions does not start
/// with `p`.
proof fn lemma_differs_at(p: Seq<char>, s: Seq<char>, i: int)
    requires
        0 <= i < p.len(),
        i < s.len(),
        p[i] != s[i],
    ensures
        !p.is_prefix_of(s),
{
    if p.is_prefix_of(s) {
        assert(s.subrange(0, p.len() as int)[i] == s[i]);
    }
}

/// Compiler notes, help and source pointers are shown dim: a line whose
/// shown text starts with `note:`, `help:` or `  -->` gets the dim colour
/// (120, 130, 145), whether it came from stdout as it is or from stderr with
/// its `@@STDERR:` prefix, since no earlier rule can apply to such a line.
pub proof fn lemma_notes_are_dim(s: Seq<char>)
    requires
        "note:"@.is_prefix_of(s) || "help:"@.is_prefix_of(s) || "  -->"@.is_prefix_of(s),
    ensures
        line_shade(s) == Shade::Dim,
        line_shade("@@STDERR:"@ + s) == Shade::Dim,
        Shade::Dim.value() == (Rgb { r: 120, g: 130, b: 145 }),
{
    reveal_strlit("note:");
    reveal_strlit("help:");
    reveal_strlit("  -->");
    reveal_strlit("@@STDERR:");
    reveal_strlit("error[");
    reveal_strlit("error: ");
    reveal_strlit("❌");
    reveal_strlit("warning[");
    reveal_strlit("warning: ");
    reveal_strlit("⚠");
    reveal_strlit("   Finished");
    reveal_strlit("    Finished");
    reveal_strlit("✅");
    reveal_strlit("test result: ok");
    reveal_strlit("   Compiling");
    reveal_strlit("    Compiling");
    reveal_strlit("   Downloading");
    reveal_strlit("    Downloading");
    reveal_strlit("   Updating");
    reveal_strlit("    Updating");
    reveal_strlit("   Running");
    reveal_strlit("    Running");
    reveal_strlit("   Fetching");
    reveal_strlit("    Fetching");
    reveal_strlit("──");
    reveal_strlit("■");
    reveal_strlit("🚀");
    let e = "@@STDERR:"@ + s;
    assert(e.subrange(0, 9) =~= "@@STDERR:"@);
    assert(e.skip(9) =~= s);
    assert(s.len() >= 5);
    // the first characters of `s` tell the earlier rules apart
    let head = s.subrange(0, 5);
    assert(head[0] == s[0] && head[2] == s[2]);
    if "  -->"@.is_prefix_of(s) {
        assert(head == "  -->"@);
        assert(s[0] == ' ' && s[2] == '-');
    } else if "note:"@.is_prefix_of(s) {
        assert(head == "note:"@);
        assert(s[0] == 'n');
    } else {
        assert(head == "help:"@);
        assert(s[0] == 'h');
    }
    let firsts = seq![
        "error["@, "error: "@, "warning["@, "warning: "@, "test result: ok"@, "❌"@, "⚠"@,
        "✅"@, "──"@, "■"@, "🚀"@, "@@STDERR:"@,
    ];
    assert(e[0] == '@');
    assert forall|k: int| 0 <= k < firsts.len() implies !(#[trigger] firsts[k]).is_prefix_of(s)
        && (k < 11 ==> !firsts[k].is_prefix_of(e)) by {
        lemma_differs_at(firsts[k], s, 0);
        if k < 11 {
            lemma_differs_at(firsts[k], e, 0);
        }
    }
    let spaced = seq![
        "   Finished"@, "    Finished"@, "   Compiling"@, "    Compiling"@, "   Downloading"@,
        "    Downloading"@, "   Updating"@, "    Updating"@, "   Running"@, "    Running"@,
        "   Fetching"@, "    Fetching"@,
    ];
    assert forall|k: int| 0 <= k < spaced.len() implies !(#[trigger] spaced[k]).is_prefix_of(s)
        by {
        if s[0] == ' ' {
            lemma_differs_at(spaced[k], s, 2);
        } else {
            lemma_differs_at(spaced[k], s, 0);
        }
    }
    assert(!"@@STDERR:"@.is_prefix_of(s));
    assert(shown_text(s) == s);
    assert(shown_text(e) == s);
    assert(!starts(s, "error[") && !starts(s, "error: ") && !starts(s, "warning[") && !starts(
        s,
        "warning: ",
    ) && !starts(s, "test result: ok")) by {
        assert(!firsts[0].is_prefix_of(s));
        assert(!firsts[1].is_prefix_of(s));
        assert(!firsts[2].is_prefix_of(s));
        assert(!firsts[3].is_prefix_of(s));
        assert(!firsts[4].is_prefix_of(s));
    }
    assert(!starts(s, "❌") && !starts(s, "⚠") && !starts(s, "✅") && !starts(s, "──") && !starts(
        s,
        "■",
    ) && !starts(s, "🚀")) by {
        assert(!firsts[5].is_prefix_of(s));
        assert(!firsts[6].is_prefix_of(s));
        assert(!firsts[7].is_prefix_of(s));
        assert(!firsts[8].is_prefix_of(s));
        assert(!firsts[9].is_prefix_of(s));
        assert(!firsts[10].is_prefix_of(s));
    }
    assert(!starts(e, "❌") && !starts(e, "⚠") && !starts(e, "✅") && !starts(e, "──") && !starts(
        e,
        "■",
    ) && !starts(e, "🚀")) by {
        assert(!firsts[5].is_prefix_of(e));
        assert(!firsts[6].is_prefix_of(e));
        assert(!firsts[7].is_prefix_of(e));
        assert(!firsts[8].is_prefix_of(e));
        assert(!firsts[9].is_prefix_of(e));
        assert(!firsts[10].is_prefix_of(e));
    }
    assert(!is_progress(s) && !starts(s, "   Finished") && !starts(s, "    Finished")) by {
        assert(!spaced[0].is_prefix_of(s));
        assert(!spaced[1].is_prefix_of(s));
        assert(!spaced[2].is_prefix_of(s));
        assert(!spaced[3].is_prefix_of(s));
        assert(!spaced[4].is_prefix_of(s));
        assert(!spaced[5].is_prefix_of(s));
        assert(!spaced[6].is_prefix_of(s));
        assert(!spaced[7].is_prefix_of(s));
        assert(!spaced[8].is_prefix_of(s));
        assert(!spaced[9].is_prefix_of(s));
        assert(!spaced[10].is_prefix_of(s));
        assert(!spaced[11].is_prefix_of(s));
    }
}

/// Compiler errors are red and warnings amber: a line whose shown text
/// starts with `error[` or `error: ` gets (230, 80, 70), one whose shown
/// text starts with `warning[` or `warning: ` gets (255, 180, 50), whether
/// it came from stdout or from stderr.
pub proof fn lemma_errors_and_warnings(s: Seq<char>)
    ensures
        "error["@.is_prefix_of(s) || "error: "@.is_prefix_of(s) ==> line_shade(s) == Shade::Error
            && line_shade("@@STDERR:"@ + s) == Shade::Error,
        "warning["@.is_prefix_of(s) || "warning: "@.is_prefix_of(s) ==> line_shade(s)
            == Shade::Warning && line_shade("@@STDERR:"@ + s) == Shade::Warning,
        Shade::Error.value() == (Rgb { r: 230, g: 80, b: 70 }),
        Shade::Warning.value() == (Rgb { r: 255, g: 180, b: 50 }),
{
    reveal_strlit("@@STDERR:");
    reveal_strlit("error[");
    reveal_strlit("error: ");
    reveal_strlit("❌");
    reveal_strlit("warning[");
    reveal_strlit("warning: ");
    let e = "@@STDERR:"@ + s;
    assert(e.subrange(0, 9) =~= "@@STDERR:"@);
    assert(e.skip(9) =~= s);
    if "error["@.is_prefix_of(s) || "error: "@.is_prefix_of(s) {
        assert(s.subrange(0, 6)[0] == s[0]);
        assert(s[0] == 'e');
        lemma_differs_at("@@STDERR:"@, s, 0);
        assert(shown_text(s) == s);
        assert(shown_text(e) == s);
    }
    if "warning["@.is_prefix_of(s) || "warning: "@.is_prefix_of(s) {
        assert(s.subrange(0, 8)[0] == s[0]);
        assert(s[0] == 'w');
        lemma_differs_at("@@STDERR:"@, s, 0);
        assert(shown_text(s) == s);
        assert(shown_text(e) == s);
        lemma_differs_at("error["@, s, 0);
        lemma_differs_at("error: "@, s, 0);
        lemma_differs_at("❌"@, s, 0);
        assert(e[0] == '@');
        lemma_differs_at("❌"@, e, 0);
    }
}

/// Whether `v[lo..]` starts with the characters of `p`.
fn has_prefix(v: &Vec<char>, lo: usize, p: &str) -> (b: bool)
    requires
        lo <= v@.len(),
    ensures
        b == p@.is_prefix_of(v@.subrange(lo as int, v@.len() as int)),
{
    let pat = chars_of(p);
    starts_with_at(v, lo, v.len(), &pat)
}

/// The text of a console line without its stderr prefix.
pub fn display_line(line: &str) -> (s: &str)
    ensures
        s@ == shown_text(line@),
{
    let v = chars_of(line);
    let n = v.len();
    assert(v@.subrange(0, n as int) =~= line@);
    let prefix = chars_of("@@STDERR:");
    if starts_with_at(&v, 0, n, &prefix) {
        assert(line@.skip(prefix@.len() as int) =~= line@.subrange(
            prefix@.len() as int,
            n as int,
        ));
        line.substring_char(prefix.len(), n)
    } else {
        line
    }
}

/// The colour of a console line.
pub fn line_color(line: &str) -> (c: Rgb)
    ensures
        c == line_shade(line@).value(),
{
    let v = chars_of(line);
    let n = v.len();
    assert(v@.subrange(0, n as int) =~= line@);
    let stderr = chars_of("@@STDERR:");
    let off = if starts_with_at(&v, 0, n, &stderr) {
        stderr.len()
    } else {
        0
    };
    assert(v@.subrange(off as int, n as int) =~= shown_text(line@));
    let shade = if has_prefix(&v, off, "error[") || has_prefix(&v, off, "error: ") || has_prefix(
        &v,
        0,
        "❌",
    ) {
        Shade::Error
    } else if has_prefix(&v, off, "warning[") || has_prefix(&v, off, "warning: ") || has_prefix(
        &v,
        0,
        "⚠",
    ) {
        Shade::Warning
    } else if has_prefix(&v, off, "   Finished") || has_prefix(&v, off, "    Finished")
        || has_prefix(&v, 0, "✅") || has_prefix(&v, off, "test result: ok") {
        Shade::Success
    } else if has_prefix(&v, off, "   Compiling") || has_prefix(&v, off, "    Compiling")
        || has_prefix(&v, off, "   Downloading") || has_prefix(&v, off, "    Downloading")
        || has_prefix(&v, off, "   Updating") || has_prefix(&v, off, "    Updating")
        || has_prefix(&v, off, "   Running") || has_prefix(&v, off, "    Running")
        || has_prefix(&v, off, "   Fetching") || has_prefix(&v, off, "    Fetching") {
        Shade::Dim
    } else if has_prefix(&v, 0, "──") || has_prefix(&v, 0, "■") || has_prefix(&v, 0, "🚀") {
        Shade::Section
    } else if has_prefix(&v, off, "note:") || has_prefix(&v, off, "help:") || has_prefix(
        &v,
        off,
        "  -->",
    ) {
        Shade::Dim
    } else {
        Shade::Default
    };
    shade.rgb()
}

/// The palette colour of a line of the load-error panel: bullet lines are
/// accented, command lines normal, other lines dim.
pub open spec fn error_line_shade(line: Seq<char>) -> Shade {
    if starts(line, "\u{2022}") {
        Shade::Accent
    } else if starts(trim(line), "cargo xtask") {
        Shade::TextNormal
    } else {
        Shade::TextDim
    }
}

/// The colour of a line of the load-error panel.
pub fn error_line_color(line: &str) -> (c: Rgb)
    ensures
        c == error_line_shade(line@).value(),
{
    let v = chars_of(line);
    let n = v.len();
    assert(v@.subrange(0, n as int) =~= line@);
    let shade = if has_prefix(&v, 0, "\u{2022}") {
        Shade::Accent
    } else {
        let (a, b) = strip_range(&v, 0, n, CharClass::Whitespace);
        let pat = chars_of("cargo xtask");
        if starts_with_at(&v, a, b, &pat) {
            Shade::TextNormal
        } else {
            Shade::TextDim
        }
    };
    shade.rgb()
}

} // verus!
