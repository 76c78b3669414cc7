//! Pairing: the code that a client has to show, and how it is shown.

use vstd::prelude::*;
use vstd::string::*;

use crate::text::{cat2, chars_of, string_of, texts};

verus! {

/// The letters of a code. None of them is easily taken for another.
pub open spec fn alphabet() -> Seq<char> {
    "ABCDEFGHJKMNPQRSTUVWXYZ23456789"@
}

/// How many letters there are.
pub const LETTERS: usize = 31;

/// `rand`'s `Rng::gen_range` on the generator of the thread: some number below
/// `n`. Which one is left to chance.
#[verifier::external_body]
fn draw(n: usize) -> (r: usize)
    requires
        n > 0,
    ensures
        r < n,
{
    rand::Rng::gen_range(&mut rand::thread_rng(), 0..n)
}

/// The code that eight picks of a letter come to.
pub open spec fn code_text(picks: Seq<usize>) -> Seq<char> {
    Seq::new(4, |i: int| alphabet()[picks[i] as int]) + seq!['-'] + Seq::new(
        4,
        |i: int| alphabet()[picks[i + 4] as int],
    )
}

/// Tells whether a text has the form of a code: four letters, a dash and four
/// letters.
pub open spec fn is_code(s: Seq<char>) -> bool {
    &&& s.len() == 9
    &&& s[4] == '-'
    &&& forall|i: int| 0 <= i < 9 && i != 4 ==> alphabet().contains(#[trigger] s[i])
}

/// The code that eight picks of a letter come to.
pub fn code_of(picks: &Vec<usize>) -> (r: String)
    requires
        picks@.len() == 8,
        forall|i: int| 0 <= i < 8 ==> (#[trigger] picks@[i]) < LETTERS,
    ensures
        r@ == code_text(picks@),
        is_code(r@),
{
    let letters = chars_of("ABCDEFGHJKMNPQRSTUVWXYZ23456789");
    proof {
        reveal_strlit("ABCDEFGHJKMNPQRSTUVWXYZ23456789");
        assert(alphabet().len() == LETTERS);
    }
    let mut out: Vec<char> = Vec::new();
    let mut i: usize = 0;
    while i < 4
        invariant
            i <= 4,
            picks@.len() == 8,
            forall|j: int| 0 <= j < 8 ==> (#[trigger] picks@[j]) < LETTERS,
            letters@ == alphabet(),
            alphabet().len() == LETTERS,
            out@.len() == i,
            forall|j: int| 0 <= j < i ==> #[trigger] out@[j] == alphabet()[picks@[j] as int],
        decreases 4 - i,
    {
        out.push(letters[picks[i]]);
        i += 1;
    }
    out.push('-');
    while i < 8
        invariant
            4 <= i <= 8,
            picks@.len() == 8,
            forall|j: int| 0 <= j < 8 ==> (#[trigger] picks@[j]) < LETTERS,
            letters@ == alphabet(),
            alphabet().len() == LETTERS,
            out@.len() == i + 1,
            out@[4] == '-',
            forall|j: int| 0 <= j < 4 ==> #[trigger] out@[j] == alphabet()[picks@[j] as int],
            forall|j: int|
                5 <= j < i + 1 ==> #[trigger] out@[j] == alphabet()[picks@[j - 1] as int],
        decreases 8 - i,
    {
        out.push(letters[picks[i]]);
        i += 1;
    }
    assert(out@ =~= code_text(picks@));
    string_of(out.as_slice())
}

/// Makes up a code.
pub fn generate_code() -> (r: String)
    ensures
        is_code(r@),
{
    let mut picks: Vec<usize> = Vec::new();
    let mut i: usize = 0;
    while i < 8
        invariant
            i <= 8,
            picks@.len() == i,
            forall|j: int| 0 <= j < i ==> (#[trigger] picks@[j]) < LETTERS,
        decreases 8 - i,
    {
        picks.push(draw(LETTERS));
        i += 1;
    }
    code_of(&picks)
}

/// No letter of a code can be taken for another: there is no O beside a zero, and
/// no I or L beside a one.
pub proof fn codes_are_unambiguous(s: Seq<char>, i: int)
    requires
        is_code(s),
        0 <= i < s.len(),
    ensures
        s[i] != '0',
        s[i] != 'O',
        s[i] != '1',
        s[i] != 'I',
        s[i] != 'L',
{
    reveal_strlit("ABCDEFGHJKMNPQRSTUVWXYZ23456789");
    if i != 4 {
        let k = choose|k: int| 0 <= k < alphabet().len() && alphabet()[k] == s[i];
        assert(alphabet()[k] == s[i]);
    }
}

/// A square of dark and light modules, row after row.
#[derive(Debug, PartialEq)]
pub struct Modules {
    pub size: usize,
    pub dark: Vec<bool>,
}

/// What a square of modules stands for.
pub struct ModulesView {
    pub size: nat,
    pub dark: Seq<bool>,
}

impl View for Modules {
    type V = ModulesView;

    open spec fn view(&self) -> ModulesView {
        ModulesView { size: self.size as nat, dark: self.dark@ }
    }
}

/// What a square of modules that may be missing stands for.
pub open spec fn modules_view(q: Option<Modules>) -> Option<ModulesView> {
    match q {
        Some(m) => Some(m@),
        None => None,
    }
}

/// Tells whether the modules, where there are any, fill their square.
pub open spec fn fills_its_square(q: Option<Modules>) -> bool {
    match q {
        Some(m) => m.dark@.len() == m.size * m.size,
        None => true,
    }
}

/// The QR code of a text; nothing when the text has none.
pub uninterp spec fn qr_code(data: Seq<char>) -> Option<ModulesView>;

/// `qrcode`'s `QrCode::new`, `width` and `to_colors`: the code depends on the
/// text alone, and has as many rows as each row has modules. Which modules are
/// dark, and which texts have no code, is left unsaid.
#[verifier::external_body]
fn encode_qr(data: &str) -> (r: Option<Modules>)
    ensures
        modules_view(r) == qr_code(data@),
        fills_its_square(r),
{
    let code = qrcode::QrCode::new(data).ok()?;
    let size = code.width();
    let dark = code.to_colors().into_iter().map(|c| c == qrcode::Color::Dark).collect();
    Some(Modules { size, dark })
}

/// How many light modules stand on each side of a code.
pub const QUIET_ZONE: usize = 2;

/// Tells whether the module at a place is dark, counted from the corner of the
/// light zone around the code.
pub open spec fn dark_at(m: ModulesView, x: int, y: int) -> bool {
    &&& QUIET_ZONE <= x < m.size + QUIET_ZONE
    &&& QUIET_ZONE <= y < m.size + QUIET_ZONE
    &&& m.dark[(y - QUIET_ZONE) * m.size + (x - QUIET_ZONE)]
}

/// The character for two modules, one above the other.
pub open spec fn half_blocks(top: bool, bottom: bool) -> char {
    if top && bottom {
        '\u{2588}'
    } else if top {
        '\u{2580}'
    } else if bottom {
        '\u{2584}'
    } else {
        ' '
    }
}

/// The characters of a line, for two rows of modules.
pub open spec fn block_row(m: ModulesView, line: int) -> Seq<char> {
    Seq::new(
        m.size + 2 * QUIET_ZONE as nat,
        |x: int| half_blocks(dark_at(m, x, 2 * line), dark_at(m, x, 2 * line + 1)),
    )
}

/// The lines that show a code, black on white.
pub open spec fn qr_text(m: ModulesView) -> Seq<Seq<char>> {
    Seq::new(
        (m.size + 2 * QUIET_ZONE as nat + 1) / 2,
        |line: int| "\x1b[38;5;0;48;5;15m"@ + block_row(m, line) + "\x1b[0m"@,
    )
}

fn is_dark(m: &Modules, x: usize, y: usize) -> (r: bool)
    requires
        m.dark@.len() == m.size * m.size,
    ensures
        r == dark_at(m@, x as int, y as int),
{
    if x < QUIET_ZONE || y < QUIET_ZONE {
        return false;
    }
    let a: usize = x - QUIET_ZONE;
    let b: usize = y - QUIET_ZONE;
    if a >= m.size || b >= m.size {
        return false;
    }
    let len: usize = m.dark.len();
    proof {
        let s = m.size as int;
        assert(len == s * s);
        assert(b * s + a < s * s && 0 <= b * s) by (nonlinear_arith)
            requires
                0 <= a < s,
                0 <= b < s,
        ;
        assert(b * m.size == b * s);
    }
    m.dark[b * m.size + a]
}

fn half_block(top: bool, bottom: bool) -> (r: char)
    ensures
        r == half_blocks(top, bottom),
{
    if top && bottom {
        '\u{2588}'
    } else if top {
        '\u{2580}'
    } else if bottom {
        '\u{2584}'
    } else {
        ' '
    }
}

/// The lines that show a code.
pub fn qr_lines(m: &Modules) -> (r: Vec<String>)
    requires
        m.dark@.len() == m.size * m.size,
    ensures
        texts(r@) == qr_text(m@),
{
    let len: usize = m.dark.len();
    proof {
        let s = m.size as int;
        assert(len == s * s);
        assert(s < 0x1_0000_0000 || s * s >= 0x1_0000_0000 * 0x1_0000_0000) by (nonlinear_arith);
        assert(s < 0x1_0000 || s * s >= 0x1_0000 * 0x1_0000) by (nonlinear_arith);
        assert(s + 8 <= usize::MAX);
    }
    let total: usize = m.size + 2 * QUIET_ZONE;
    let rows: usize = (total + 1) / 2;
    let mut out: Vec<String> = Vec::new();
    let mut line: usize = 0;
    while line < rows
        invariant
            line <= rows,
            m.dark@.len() == m.size * m.size,
            total == m.size + 2 * QUIET_ZONE,
            total + 1 <= usize::MAX,
            rows == (total + 1) / 2,
            out@.len() == line,
            forall|k: int| 0 <= k < line ==> (#[trigger] out@[k])@ == qr_text(m@)[k],
        decreases rows - line,
    {
        let mut row: Vec<char> = Vec::new();
        let mut x: usize = 0;
        while x < total
            invariant
                x <= total,
                line < rows,
                rows == (total + 1) / 2,
                total + 1 <= usize::MAX,
                m.dark@.len() == m.size * m.size,
                row@.len() == x,
                forall|k: int|
                    0 <= k < x ==> #[trigger] row@[k] == half_blocks(
                        dark_at(m@, k, 2 * line),
                        dark_at(m@, k, 2 * line + 1),
                    ),
            decreases total - x,
        {
            let top = is_dark(m, x, 2 * line);
            let bottom = is_dark(m, x, 2 * line + 1);
            row.push(half_block(top, bottom));
            x += 1;
        }
        assert(row@ =~= block_row(m@, line as int));
        let blocks = string_of(row.as_slice());
        let mut text = cat2("\x1b[38;5;0;48;5;15m", blocks.as_str());
        text.append("\x1b[0m");
        out.push(text);
        line += 1;
    }
    assert(texts(out@) =~= qr_text(m@));
    out
}

/// The lines that show the code of a text; nothing when the text has none.
pub fn print_qr(data: &str) -> (r: Option<Vec<String>>)
    ensures
        match (r, qr_code(data@)) {
            (Some(lines), Some(m)) => texts(lines@) == qr_text(m),
            (None, None) => true,
            _ => false,
        },
{
    match encode_qr(data) {
        Some(m) => Some(qr_lines(&m)),
        None => None,
    }
}

/// What a line of a code shows at a place: whether the upper and the lower
/// module are dark.
pub open spec fn shown_by(c: char) -> (bool, bool) {
    (c == '\u{2588}' || c == '\u{2580}', c == '\u{2588}' || c == '\u{2584}')
}

/// Every module of a code can be read off the lines that show it.
pub proof fn every_module_is_shown(m: ModulesView, x: int, y: int)
    requires
        0 <= x < m.size,
        0 <= y < m.size,
    ensures
        ({
            let line = (y + QUIET_ZONE) / 2;
            let c = block_row(m, line)[x + QUIET_ZONE];
            &&& 0 <= line < qr_text(m).len()
            &&& qr_text(m)[line] == "\x1b[38;5;0;48;5;15m"@ + block_row(m, line) + "\x1b[0m"@
            &&& m.dark[y * m.size + x] == (if (y + QUIET_ZONE) % 2 == 0 {
                shown_by(c).0
            } else {
                shown_by(c).1
            })
        }),
{
    let line = (y + QUIET_ZONE) / 2;
    assert(block_row(m, line)[x + QUIET_ZONE] == half_blocks(
        dark_at(m, x + QUIET_ZONE, 2 * line),
        dark_at(m, x + QUIET_ZONE, 2 * line + 1),
    ));
    assert(dark_at(m, x + QUIET_ZONE, y + QUIET_ZONE) == m.dark[y * m.size + x]);
}

/// A list of lines with one more.
fn say(lines: &mut Vec<String>, line: &str)
    ensures
        texts(final(lines)@) == texts(old(lines)@).push(line@),
{
    let ghost before = texts(lines@);
    lines.push(line.to_owned());
    assert(texts(lines@) =~= before.push(line@));
}

/// A list of lines with those of another list behind them.
fn say_all(lines: &mut Vec<String>, more: Vec<String>)
    ensures
        texts(final(lines)@) == texts(old(lines)@) + texts(more@),
{
    let ghost before = texts(lines@);
    let mut i: usize = 0;
    assert(texts(lines@) =~= before + texts(more@).take(0));
    while i < more.len()
        invariant
            i <= more@.len(),
            texts(lines@) == before + texts(more@).take(i as int),
        decreases more@.len() - i,
    {
        say(lines, more[i].as_str());
        assert(texts(lines@) =~= before + texts(more@).take(i + 1));
        i += 1;
    }
    assert(texts(more@).take(i as int) =~= texts(more@));
}

/// The lines above the QR code when a client has to pair.
pub open spec fn pairing_head(code: Seq<char>) -> Seq<Seq<char>> {
    Seq::<Seq<char>>::empty().push(""@).push(
        "====================================================="@,
    ).push("  NoIDE pairing required"@).push(""@).push(
        "  Connect from the app and enter this code:"@,
    ).push(""@).push("          "@ + code).push(""@).push(
        "  It is valid until this server exits and is never stored."@,
    ).push("  (Use --token <value> for a fixed token, or --no-auth to"@).push(
        "   allow unauthenticated connections.)"@,
    ).push("====================================================="@).push(""@).push(
        "  Or scan this QR code with the app:"@,
    ).push(""@)
}

/// What is printed for a client to pair; nothing when the code cannot be shown.
pub fn print_pairing(code: &str) -> (r: Option<Vec<String>>)
    ensures
        match (r, qr_code(code@)) {
            (Some(lines), Some(m)) => texts(lines@) == (pairing_head(code@) + qr_text(m)).push(""@),
            (None, None) => true,
            _ => false,
        },
{
    let qr = match print_qr(code) {
        Some(lines) => lines,
        None => {
            return None;
        },
    };
    let mut out: Vec<String> = Vec::new();
    assert(texts(out@) =~= Seq::<Seq<char>>::empty());
    let shown = cat2("          ", code);
    say(&mut out, "");
    say(&mut out, "=====================================================");
    say(&mut out, "  NoIDE pairing required");
    say(&mut out, "");
    say(&mut out, "  Connect from the app and enter this code:");
    say(&mut out, "");
    say(&mut out, shown.as_str());
    say(&mut out, "");
    say(&mut out, "  It is valid until this server exits and is never stored.");
    say(&mut out, "  (Use --token <value> for a fixed token, or --no-auth to");
    say(&mut out, "   allow unauthenticated connections.)");
    say(&mut out, "=====================================================");
    say(&mut out, "");
    say(&mut out, "  Or scan this QR code with the app:");
    say(&mut out, "");
    assert(texts(out@) == pairing_head(code@));
    say_all(&mut out, qr);
    say(&mut out, "");
    Some(out)
}

/// The lines above the QR code when anyone may connect.
pub open spec fn open_head(url: Seq<char>) -> Seq<Seq<char>> {
    Seq::<Seq<char>>::empty().push(""@).push(
        "====================================================="@,
    ).push("  NoIDE server (no auth)"@).push(""@).push("  Server URL for the app:"@).push(""@).push(
        "          "@ + url,
    ).push(""@).push("  Or scan this QR code with a camera to copy the URL:"@).push(""@)
}

/// The lines below the QR code when anyone may connect.
pub open spec fn open_foot() -> Seq<Seq<char>> {
    Seq::<Seq<char>>::empty().push(""@).push(
        "====================================================="@,
    ).push(""@)
}

/// What is printed when anyone may connect; nothing when the address cannot be
/// shown.
pub fn print_open(url: &str) -> (r: Option<Vec<String>>)
    ensures
        match (r, qr_code(url@)) {
            (Some(lines), Some(m)) => texts(lines@) == open_head(url@) + qr_text(m) + open_foot(),
            (None, None) => true,
            _ => false,
        },
{
    let qr = match print_qr(url) {
        Some(lines) => lines,
        None => {
            return None;
        },
    };
    let mut out: Vec<String> = Vec::new();
    assert(texts(out@) =~= Seq::<Seq<char>>::empty());
    let shown = cat2("          ", url);
    say(&mut out, "");
    say(&mut out, "=====================================================");
    say(&mut out, "  NoIDE server (no auth)");
    say(&mut out, "");
    say(&mut out, "  Server URL for the app:");
    say(&mut out, "");
    say(&mut out, shown.as_str());
    say(&mut out, "");
    say(&mut out, "  Or scan this QR code with a camera to copy the URL:");
    say(&mut out, "");
    assert(texts(out@) == open_head(url@));
    let ghost head = texts(out@);
    let ghost code = texts(qr@);
    say_all(&mut out, qr);
    say(&mut out, "");
    say(&mut out, "=====================================================");
    say(&mut out, "");
    assert(texts(out@) =~= head + code + open_foot());
    Some(out)
}

/// A code spells the letters that were picked, in their order, with a dash in the middle.
pub proof fn codes_spell_their_picks(picks: Seq<usize>, i: int)
    requires
        0 <= i < 8,
    ensures
        code_text(picks).len() == 9,
        code_text(picks)[4] == '-',
        i < 4 ==> code_text(picks)[i] == alphabet()[picks[i] as int],
        i >= 4 ==> code_text(picks)[i + 1] == alphabet()[picks[i] as int],
{
}

/// The code and the address that a client needs are printed as they are, on lines of their own
/// and before the code that can be scanned.
pub proof fn codes_are_printed(code: Seq<char>)
    ensures
        pairing_head(code).contains("          "@ + code),
        open_head(code).contains("          "@ + code),
{
    assert(pairing_head(code)[6] == "          "@ + code);
    assert(open_head(code)[6] == "          "@ + code);
}

/// Around a code two modules on every side are light, so that it can be told from what is
/// around it.
pub proof fn codes_have_light_around_them(m: ModulesView, x: int, y: int)
    requires
        x < 2 || y < 2 || x >= m.size + 2 || y >= m.size + 2,
    ensures
        !dark_at(m, x, y),
        qr_text(m).len() == (m.size + 5) / 2,
        block_row(m, y).len() == m.size + 4,
{
}

} // verus!
