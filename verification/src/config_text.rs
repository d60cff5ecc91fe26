use vstd::prelude::*;

use crate::config::{ColorsConfig, ShellConfig, WindowConfig};
use crate::statusbar::{opt_string_view, strings_view};
use crate::text::{push_char, push_str};

verus! {

/// The character of the decimal digit `d`.
pub open spec fn digit_char(d: nat) -> char {
    (48 + d) as char
}

/// `n` in decimal, without leading zeros.
pub open spec fn decimal(n: nat) -> Seq<char>
    decreases n,
{
    if n < 10 {
        seq![digit_char(n)]
    } else {
        decimal(n / 10).push(digit_char(n % 10))
    }
}

fn digit(d: u32) -> (c: char)
    requires
        d < 10,
    ensures
        c == digit_char(d as nat),
{
    let b: u8 = 48u8 + (d as u8);
    b as char
}

/// Appends `n` in decimal to `s`.
fn push_decimal(s: &mut String, n: u32)
    ensures
        final(s)@ == old(s)@ + decimal(n as nat),
    decreases n,
{
    if n >= 10 {
        push_decimal(s, n / 10);
    }
    push_char(s, digit(n % 10));
    assert(final(s)@ =~= old(s)@ + decimal(n as nat));
}

/// What `{:?}` writes for a string: the text in double quotes, with
/// quotes, backslashes and characters that do not print escaped.
pub uninterp spec fn debug_quoted(s: Seq<char>) -> Seq<char>;

/// Formats `s` with std's `Debug` for `str` (the `{:?}` of `format!`),
/// whose escaping is a function of the text alone (`debug_quoted`).
#[verifier::external_body]
fn debug_quote(s: &str) -> (q: String)
    ensures
        q@ == debug_quoted(s@),
{
    format!("{:?}", s)
}

/// The `[shell]` line: the configured program, or a commented example.
pub open spec fn shell_line(program: Option<Seq<char>>) -> Seq<char> {
    match program {
        Some(p) => "program = "@ + debug_quoted(p),
        None => "# program = \"/bin/zsh\""@,
    }
}

/// The palette entries, quoted and indented, one per line.
pub open spec fn palette_lines(p: Seq<Seq<char>>) -> Seq<char>
    decreases p.len(),
{
    if p.len() == 0 {
        Seq::empty()
    } else if p.len() == 1 {
        "  "@ + debug_quoted(p[0])
    } else {
        palette_lines(p.drop_last()) + ",\n"@ + "  "@ + debug_quoted(p.last())
    }
}

/// The configuration file that `config_text` writes; `size` is the font
/// size as already formatted.
pub open spec fn config_toml(
    family: Seq<char>,
    size: Seq<char>,
    window: WindowConfig,
    program: Option<Seq<char>>,
    colors: ColorsConfig,
) -> Seq<char> {
    "# mmterm configuration\n\n[font]\nfamily = "@ + debug_quoted(family)
        + "\nsize = "@ + size
        + "\n\n[window]\nwidth           = "@ + decimal(window.width as nat)
        + "\nheight          = "@ + decimal(window.height as nat)
        + "\ntitle           = "@ + debug_quoted(window.title@)
        + "\ncursor_blink_ms = "@ + decimal(window.cursor_blink_ms as nat)
        + "\n\n[shell]\n"@ + shell_line(program)
        + "\n\n[colors]\nbackground = "@ + debug_quoted(colors.background@)
        + "\nforeground = "@ + debug_quoted(colors.foreground@)
        + "\ncursor     = "@ + debug_quoted(colors.cursor@)
        + "\nselection  = "@ + debug_quoted(colors.selection@)
        + "\npalette = [\n"@ + palette_lines(strings_view(colors.palette@))
        + "\n]\n"@
}

/// Appends the palette lines of `palette` to `s`.
fn push_palette(s: &mut String, palette: &Vec<String>)
    ensures
        final(s)@ == old(s)@ + palette_lines(strings_view(palette@)),
{
    let ghost start = s@;
    let ghost p = strings_view(palette@);
    let mut i: usize = 0;
    assert(p.take(0) =~= Seq::<Seq<char>>::empty());
    assert(s@ =~= start + palette_lines(p.take(0)));
    while i < palette.len()
        invariant
            i <= palette@.len(),
            p == strings_view(palette@),
            p.len() == palette@.len(),
            s@ == start + palette_lines(p.take(i as int)),
        decreases palette@.len() - i,
    {
        let ghost before = s@;
        if i > 0 {
            push_str(s, ",\n");
        }
        push_str(s, "  ");
        let q = debug_quote(palette[i].as_str());
        push_str(s, q.as_str());
        proof {
            let t = p.take(i as int + 1);
            assert(t.drop_last() =~= p.take(i as int));
            assert(t.last() == palette@[i as int]@);
            if i == 0 {
                assert(t =~= seq![p[0]]);
            }
            assert(s@ =~= start + palette_lines(t));
        }
        i = i + 1;
    }
    assert(p.take(i as int) =~= p);
}

/// The text of the configuration file for these settings, with `family`
/// as the font family and `size` as the font size already formatted.
pub fn config_text(
    family: &str,
    size: &str,
    window: &WindowConfig,
    shell: &ShellConfig,
    colors: &ColorsConfig,
) -> (t: String)
    ensures
        t@ == config_toml(family@, size@, *window, opt_string_view(shell.program), *colors),
{
    let mut s = String::new();
    push_str(&mut s, "# mmterm configuration\n\n[font]\nfamily = ");
    let q = debug_quote(family);
    push_str(&mut s, q.as_str());
    push_str(&mut s, "\nsize = ");
    push_str(&mut s, size);
    push_str(&mut s, "\n\n[window]\nwidth           = ");
    push_decimal(&mut s, window.width);
    push_str(&mut s, "\nheight          = ");
    push_decimal(&mut s, window.height);
    push_str(&mut s, "\ntitle           = ");
    let q = debug_quote(window.title.as_str());
    push_str(&mut s, q.as_str());
    push_str(&mut s, "\ncursor_blink_ms = ");
    push_decimal(&mut s, window.cursor_blink_ms);
    push_str(&mut s, "\n\n[shell]\n");
    match &shell.program {
        Some(p) => {
            push_str(&mut s, "program = ");
            let q = debug_quote(p.as_str());
            push_str(&mut s, q.as_str());
        },
        None => {
            push_str(&mut s, "# program = \"/bin/zsh\"");
        },
    }
    push_str(&mut s, "\n\n[colors]\nbackground = ");
    let q = debug_quote(colors.background.as_str());
    push_str(&mut s, q.as_str());
    push_str(&mut s, "\nforeground = ");
    let q = debug_quote(colors.foreground.as_str());
    push_str(&mut s, q.as_str());
    push_str(&mut s, "\ncursor     = ");
    let q = debug_quote(colors.cursor.as_str());
    push_str(&mut s, q.as_str());
    push_str(&mut s, "\nselection  = ");
    let q = debug_quote(colors.selection.as_str());
    push_str(&mut s, q.as_str());
    push_str(&mut s, "\npalette = [\n");
    push_palette(&mut s, &colors.palette);
    push_str(&mut s, "\n]\n");
    assert(s@ =~= config_toml(family@, size@, *window, opt_string_view(shell.program), *colors));
    s
}

} // verus!
