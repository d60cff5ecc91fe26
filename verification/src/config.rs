use vstd::prelude::*;

use crate::color::Color;

verus! {

/// Numeric value of a hexadecimal digit, `None` for any other character.
pub open spec fn hex_digit(c: char) -> Option<nat> {
    if '0' <= c && c <= '9' {
        Some((c as nat - '0' as nat) as nat)
    } else if 'a' <= c && c <= 'f' {
        Some((c as nat - 'a' as nat + 10) as nat)
    } else if 'A' <= c && c <= 'F' {
        Some((c as nat - 'A' as nat + 10) as nat)
    } else {
        None
    }
}

/// Every character of `s` is a hexadecimal digit.
pub open spec fn all_hex(s: Seq<char>) -> bool {
    forall|i: int| 0 <= i < s.len() ==> (#[trigger] hex_digit(s[i])) is Some
}

/// The number that the hexadecimal digits `s` spell, most significant first.
pub open spec fn hex_value(s: Seq<char>) -> nat
    decreases s.len(),
{
    if s.len() == 0 {
        0
    } else {
        16 * hex_value(s.drop_last()) + hex_digit(s.last()).unwrap()
    }
}

/// `s` with every leading `'#'` removed.
pub open spec fn strip_hashes(s: Seq<char>) -> Seq<char>
    decreases s.len(),
{
    if s.len() > 0 && s[0] == '#' {
        strip_hashes(s.drop_first())
    } else {
        s
    }
}

/// What parsing `s` as an unsigned 32-bit number in base 16 gives: an
/// optional `'+'`, then at least one hexadecimal digit and nothing else, of
/// a value that fits in 32 bits.
pub open spec fn parse_u32_hex(s: Seq<char>) -> Option<u32> {
    let digits = if s.len() > 0 && s[0] == '+' { s.drop_first() } else { s };
    if digits.len() > 0 && all_hex(digits) && hex_value(digits) <= u32::MAX {
        Some(hex_value(digits) as u32)
    } else {
        None
    }
}

/// The number a colour string stands for: leading `'#'`s stripped, then
/// base 16; 0 where that fails.
pub open spec fn hex_color_number(s: Seq<char>) -> nat {
    match parse_u32_hex(strip_hashes(s)) {
        Some(n) => n as nat,
        None => 0,
    }
}

/// The colour whose channels are bytes 2, 1 and 0 of `n`.
pub open spec fn color_of_number(n: nat) -> Color {
    Color { r: ((n / 0x10000) % 0x100) as u8, g: ((n / 0x100) % 0x100) as u8, b: (n % 0x100) as u8 }
}

/// The colour a configuration string such as `"#a0a0a0"` names.
pub open spec fn spec_parse_hex(s: Seq<char>) -> Color {
    color_of_number(hex_color_number(s))
}

proof fn lemma_strip_hashes_skip(s: Seq<char>, k: int)
    requires
        0 <= k <= s.len(),
        forall|j: int| 0 <= j < k ==> s[j] == '#',
    ensures
        strip_hashes(s) == strip_hashes(s.skip(k)),
    decreases k,
{
    if k > 0 {
        assert(s.skip(1).skip(k - 1) =~= s.skip(k));
        lemma_strip_hashes_skip(s.drop_first(), k - 1);
        assert(s.drop_first() =~= s.skip(1));
    } else {
        assert(s.skip(0) =~= s);
    }
}

proof fn lemma_hex_value_grows(s: Seq<char>, k: int)
    requires
        0 <= k <= s.len(),
    ensures
        hex_value(s.take(k)) <= hex_value(s),
    decreases s.len() - k,
{
    if k < s.len() {
        lemma_hex_value_grows(s, k + 1);
        assert(s.take(k + 1).drop_last() =~= s.take(k));
    } else {
        assert(s.take(k) =~= s);
    }
}

/// Leading `'#'`s do not change the colour a string names.
pub proof fn lemma_hash_prefix_ignored(s: Seq<char>)
    ensures
        spec_parse_hex(seq!['#'] + s) == spec_parse_hex(s),
{
    let t = seq!['#'] + s;
    assert(t.drop_first() =~= s);
}

/// Text that is not hexadecimal names black.
pub proof fn lemma_invalid_is_black(s: Seq<char>)
    requires
        parse_u32_hex(strip_hashes(s)) is None,
    ensures
        spec_parse_hex(s) == (Color { r: 0, g: 0, b: 0 }),
{
}

/// `"#rrggbb"` names the colour whose channels are the three hexadecimal
/// pairs.
pub proof fn lemma_parse_rrggbb(d: Seq<char>)
    requires
        d.len() == 6,
        all_hex(d),
    ensures
        ({
            let v = |i: int| hex_digit(d[i]).unwrap();
            spec_parse_hex(seq!['#'] + d) == (Color {
                r: (v(0) * 16 + v(1)) as u8,
                g: (v(2) * 16 + v(3)) as u8,
                b: (v(4) * 16 + v(5)) as u8,
            })
        }),
{
    let t = seq!['#'] + d;
    assert(t.drop_first() =~= d);
    assert(hex_digit(d[0]) is Some);
    assert(d[0] != '#' && d[0] != '+');
    assert(strip_hashes(d) == d);
    assert(strip_hashes(t) == d);
    let v0 = hex_digit(d[0]).unwrap();
    let v1 = hex_digit(d[1]).unwrap();
    let v2 = hex_digit(d[2]).unwrap();
    let v3 = hex_digit(d[3]).unwrap();
    let v4 = hex_digit(d[4]).unwrap();
    let v5 = hex_digit(d[5]).unwrap();
    assert(hex_digit(d[1]) is Some && hex_digit(d[2]) is Some && hex_digit(d[3]) is Some);
    assert(hex_digit(d[4]) is Some && hex_digit(d[5]) is Some);
    assert(v0 < 16 && v1 < 16 && v2 < 16 && v3 < 16 && v4 < 16 && v5 < 16);
    assert(d.take(0).len() == 0);
    assert(hex_value(d.take(0)) == 0);
    assert(d.take(1).drop_last() =~= d.take(0));
    assert(d.take(1).last() == d[0]);
    assert(hex_value(d.take(1)) == v0);
    assert(d.take(2).drop_last() =~= d.take(1));
    assert(d.take(2).last() == d[1]);
    assert(d.take(3).drop_last() =~= d.take(2));
    assert(d.take(3).last() == d[2]);
    assert(d.take(4).drop_last() =~= d.take(3));
    assert(d.take(4).last() == d[3]);
    assert(d.take(5).drop_last() =~= d.take(4));
    assert(d.take(5).last() == d[4]);
    assert(d.take(6).drop_last() =~= d.take(5));
    assert(d.take(6).last() == d[5]);
    assert(hex_value(d.take(2)) == 16 * v0 + v1);
    assert(hex_value(d.take(3)) == 16 * hex_value(d.take(2)) + v2);
    assert(hex_value(d.take(4)) == 16 * hex_value(d.take(3)) + v3);
    assert(hex_value(d.take(5)) == 16 * hex_value(d.take(4)) + v4);
    assert(hex_value(d.take(6)) == 16 * hex_value(d.take(5)) + v5);
    assert(d.take(6) =~= d);
    let rr = 16 * v0 + v1;
    let gg = 16 * v2 + v3;
    let bb = 16 * v4 + v5;
    assert(hex_value(d) == rr * 65536 + gg * 256 + bb);
    let n = hex_value(d);
    assert(rr < 256 && gg < 256 && bb < 256);
    assert(n <= u32::MAX);
    assert(parse_u32_hex(d) == Some(n as u32));
    assert(n / 0x10000 == rr) by (nonlinear_arith)
        requires
            n == rr * 65536 + gg * 256 + bb,
            gg < 256,
            bb < 256,
    ;
    assert(n / 0x100 == rr * 256 + gg) by (nonlinear_arith)
        requires
            n == rr * 65536 + gg * 256 + bb,
            bb < 256,
    ;
    assert((rr * 256 + gg) % 0x100 == gg) by (nonlinear_arith)
        requires
            gg < 256,
    ;
    assert(n % 0x100 == bb) by (nonlinear_arith)
        requires
            n == rr * 65536 + gg * 256 + bb,
            bb < 256,
    ;
}

/// Parses a colour given as hexadecimal text (`"#rrggbb"`); leading `'#'`s
/// are ignored and text that is not a 32-bit hexadecimal number gives black.
pub fn parse_hex(s: &str) -> (c: Color)
    ensures
        c == spec_parse_hex(s@),
{
    let n = s.unicode_len();
    let mut i: usize = 0;
    while i < n && s.get_char(i) == '#'
        invariant
            n == s@.len(),
            i <= n,
            forall|j: int| 0 <= j < i ==> s@[j] == '#',
        decreases n - i,
    {
        i = i + 1;
    }
    proof {
        lemma_strip_hashes_skip(s@, i as int);
        assert(strip_hashes(s@.skip(i as int)) == s@.skip(i as int));
    }
    let ghost rest = s@.skip(i as int);
    let mut start = i;
    if i < n && s.get_char(i) == '+' {
        start = i + 1;
    }
    let ghost digits = s@.subrange(start as int, n as int);
    assert(digits =~= (if rest.len() > 0 && rest[0] == '+' { rest.drop_first() } else { rest }));
    if start == n {
        return Color::rgb(0, 0, 0);
    }
    let mut acc: u64 = 0;
    let mut k: usize = start;
    while k < n
        invariant
            n == s@.len(),
            start < n,
            start <= k <= n,
            digits == s@.subrange(start as int, n as int),
            rest == strip_hashes(s@),
            digits == (if rest.len() > 0 && rest[0] == '+' { rest.drop_first() } else { rest }),
            acc == hex_value(digits.take(k - start)),
            acc <= u32::MAX,
            all_hex(digits.take(k - start)),
        decreases n - k,
    {
        let ch = s.get_char(k);
        let d: u64 = if '0' <= ch && ch <= '9' {
            (ch as u64) - ('0' as u64)
        } else if 'a' <= ch && ch <= 'f' {
            (ch as u64) - ('a' as u64) + 10
        } else if 'A' <= ch && ch <= 'F' {
            (ch as u64) - ('A' as u64) + 10
        } else {
            assert(!all_hex(digits)) by {
                assert(digits[k - start] == ch);
                assert(hex_digit(digits[k - start]) is None);
            }
            return Color::rgb(0, 0, 0);
        };
        let ghost pre = digits.take(k - start);
        let ghost next = digits.take(k - start + 1);
        assert(next.drop_last() =~= pre);
        assert(next.last() == ch);
        assert(d == hex_digit(ch).unwrap());
        acc = acc * 16 + d;
        k = k + 1;
        assert(acc == hex_value(next));
        assert(all_hex(next)) by {
            assert forall|j: int| 0 <= j < next.len() implies (#[trigger] hex_digit(next[j])) is Some by {
                if j < pre.len() {
                    assert(next[j] == pre[j]);
                }
            }
        }
        if acc > 0xffff_ffff {
            proof {
                lemma_hex_value_grows(digits, k - start);
                assert(hex_value(digits) > u32::MAX);
                assert(parse_u32_hex(strip_hashes(s@)) is None);
            }
            return Color::rgb(0, 0, 0);
        }
    }
    assert(digits.take(n - start) =~= digits);
    let v: u32 = acc as u32;
    Color::rgb((v / 0x10000 % 0x100) as u8, (v / 0x100 % 0x100) as u8, (v % 0x100) as u8)
}

/// The milliseconds between two cursor blinks when the configuration does
/// not say.
pub fn default_blink_ms() -> (ms: u32)
    ensures
        ms == 500,
{
    500
}

/// Window settings.
#[derive(Clone, Debug)]
pub struct WindowConfig {
    pub width: u32,
    pub height: u32,
    pub title: String,
    pub cursor_blink_ms: u32,
}

/// Which shell program runs in new panes; `None` means the user's shell.
#[derive(Clone, Debug)]
pub struct ShellConfig {
    pub program: Option<String>,
}

/// Colours as written in the configuration file, `"#rrggbb"` each.
#[derive(Clone, Debug)]
pub struct ColorsConfig {
    pub background: String,
    pub foreground: String,
    pub cursor: String,
    pub selection: String,
    /// 16-colour ANSI palette: black, red, green, yellow, blue, magenta,
    /// cyan, white, then the bright variant of each.
    pub palette: Vec<String>,
}

/// Entry `i` of the 16-colour palette built from the configured strings:
/// the parsed string where the configuration has one, black beyond it.
pub open spec fn palette_entry(palette: Seq<String>, i: int) -> Color {
    if i < palette.len() {
        spec_parse_hex(palette[i]@)
    } else {
        Color { r: 0, g: 0, b: 0 }
    }
}

impl ColorsConfig {
    pub fn bg(&self) -> (c: Color)
        ensures
            c == spec_parse_hex(self.background@),
    {
        parse_hex(self.background.as_str())
    }

    pub fn fg(&self) -> (c: Color)
        ensures
            c == spec_parse_hex(self.foreground@),
    {
        parse_hex(self.foreground.as_str())
    }

    pub fn cursor(&self) -> (c: Color)
        ensures
            c == spec_parse_hex(self.cursor@),
    {
        parse_hex(self.cursor.as_str())
    }

    pub fn selection(&self) -> (c: Color)
        ensures
            c == spec_parse_hex(self.selection@),
    {
        parse_hex(self.selection.as_str())
    }

    /// The 16 palette colours: the first 16 configured strings parsed, and
    /// black for any that the configuration leaves out.
    pub fn palette_colors(&self) -> (out: [Color; 16])
        ensures
            forall|i: int| 0 <= i < 16 ==> #[trigger] out@[i] == palette_entry(self.palette@, i),
    {
        let mut out = [Color::rgb(0, 0, 0); 16];
        let n = if self.palette.len() < 16 { self.palette.len() } else { 16 };
        let mut i: usize = 0;
        while i < n
            invariant
                i <= n <= 16,
                n <= self.palette@.len(),
                n == 16 || n == self.palette@.len(),
                forall|k: int| 0 <= k < i ==> #[trigger] out@[k] == palette_entry(self.palette@, k),
                forall|k: int| i <= k < 16 ==> #[trigger] out@[k] == (Color { r: 0, g: 0, b: 0 }),
            decreases n - i,
        {
            out[i] = parse_hex(self.palette[i].as_str());
            i = i + 1;
        }
        out
    }
}

/// The 16 palette strings of the default configuration (a Monokai-like
/// scheme).
pub open spec fn default_palette_text() -> Seq<Seq<char>> {
    seq![
        "#1b1d1e"@,
        "#f92672"@,
        "#a6e22e"@,
        "#fd971f"@,
        "#66d9ef"@,
        "#9e6ffe"@,
        "#5e7175"@,
        "#ccccc6"@,
        "#505354"@,
        "#ff669d"@,
        "#beed5f"@,
        "#e6db74"@,
        "#66d9ef"@,
        "#9e6ffe"@,
        "#a3babf"@,
        "#f8f8f2"@,
    ]
}

impl Default for WindowConfig {
    fn default() -> (w: WindowConfig)
        ensures
            w.width == 800,
            w.height == 600,
            w.title@ == "mmterm"@,
            w.cursor_blink_ms == 500,
    {
        WindowConfig {
            width: 800,
            height: 600,
            title: String::from_str("mmterm"),
            cursor_blink_ms: 500,
        }
    }
}

impl Default for ShellConfig {
    fn default() -> (s: ShellConfig)
        ensures
            s.program is None,
    {
        ShellConfig { program: None }
    }
}

impl Default for ColorsConfig {
    fn default() -> (c: ColorsConfig)
        ensures
            c.background@ == "#121212"@,
            c.foreground@ == "#a0a0a0"@,
            c.cursor@ == "#bbbbbb"@,
            c.selection@ == "#3d3d3d"@,
            c.palette@.len() == 16,
            forall|i: int| 0 <= i < 16 ==> #[trigger] c.palette@[i]@ == default_palette_text()[i],
    {
        let palette = vec![
            String::from_str("#1b1d1e"),
            String::from_str("#f92672"),
            String::from_str("#a6e22e"),
            String::from_str("#fd971f"),
            String::from_str("#66d9ef"),
            String::from_str("#9e6ffe"),
            String::from_str("#5e7175"),
            String::from_str("#ccccc6"),
            String::from_str("#505354"),
            String::from_str("#ff669d"),
            String::from_str("#beed5f"),
            String::from_str("#e6db74"),
            String::from_str("#66d9ef"),
            String::from_str("#9e6ffe"),
            String::from_str("#a3babf"),
            String::from_str("#f8f8f2"),
        ];
        ColorsConfig {
            background: String::from_str("#121212"),
            foreground: String::from_str("#a0a0a0"),
            cursor: String::from_str("#bbbbbb"),
            selection: String::from_str("#3d3d3d"),
            palette,
        }
    }
}

} // verus!
