//! Turning an `Exec=` template into the command line that is handed to a shell.
use vstd::prelude::*;

use crate::model::AppInfo;

verus! {

/// True of a character that, after a `%`, forms a field code that expands to nothing.
pub open spec fn is_dropped_code(c: char) -> bool {
    c == 'u' || c == 'U' || c == 'f' || c == 'F' || c == 'i' || c == 'c' || c == 'k'
}

/// The template read left to right: `%` and a dropped code vanish, `%%` becomes one `%`,
/// every other character is kept. A `%` produced by `%%` is never read again.
pub open spec fn strip_codes(s: Seq<char>) -> Seq<char>
    decreases s.len(),
{
    if s.len() == 0 {
        Seq::<char>::empty()
    } else if s[0] == '%' && s.len() >= 2 && is_dropped_code(s[1]) {
        strip_codes(s.skip(2))
    } else if s[0] == '%' && s.len() >= 2 && s[1] == '%' {
        seq!['%'] + strip_codes(s.skip(2))
    } else {
        seq![s[0]] + strip_codes(s.skip(1))
    }
}

/// True of a string in which no `%` is followed by a dropped code or by another `%`.
pub open spec fn has_no_codes(s: Seq<char>) -> bool {
    forall|i: int|
        0 <= i < s.len() - 1 && #[trigger] s[i] == '%' ==> !is_dropped_code(s[i + 1]) && s[i + 1]
            != '%'
}

/// Unicode `White_Space`, the whitespace that `str::trim` removes.
pub open spec fn is_white_space(c: char) -> bool {
    let u = c as u32;
    (0x09 <= u && u <= 0x0d) || u == 0x20 || u == 0x85 || u == 0xa0 || u == 0x1680 || (0x2000
        <= u && u <= 0x200a) || u == 0x2028 || u == 0x2029 || u == 0x202f || u == 0x205f || u
        == 0x3000
}

pub open spec fn trim_start_ws(s: Seq<char>) -> Seq<char>
    decreases s.len(),
{
    if s.len() > 0 && is_white_space(s[0]) {
        trim_start_ws(s.skip(1))
    } else {
        s
    }
}

pub open spec fn trim_end_ws(s: Seq<char>) -> Seq<char>
    decreases s.len(),
{
    if s.len() > 0 && is_white_space(s.last()) {
        trim_end_ws(s.drop_last())
    } else {
        s
    }
}

/// `s` without leading and trailing whitespace.
pub open spec fn trim_ws(s: Seq<char>) -> Seq<char> {
    trim_end_ws(trim_start_ws(s))
}

/// Relies on `str::trim`: leading and trailing Unicode `White_Space` removed.
#[verifier::external_body]
pub(crate) fn trim_str(s: &str) -> (r: String)
    ensures
        r@ == trim_ws(s@),
{
    s.trim().to_string()
}

/// The template `exec` with its field codes removed and each `%%` turned into `%`.
pub fn strip_field_codes(exec: &str) -> (r: String)
    ensures
        r@ == strip_codes(exec@),
{
    let n = exec.unicode_len();
    let mut out = String::new();
    let mut i: usize = 0;
    assert(exec@.skip(0) =~= exec@);
    assert(out@ + strip_codes(exec@) =~= strip_codes(exec@));
    while i < n
        invariant
            n == exec@.len(),
            i <= n,
            out@ + strip_codes(exec@.skip(i as int)) == strip_codes(exec@),
        decreases n - i,
    {
        let rest = Ghost(exec@.skip(i as int));
        let c = exec.get_char(i);
        assert(rest@[0] == c);
        if c == '%' && i + 1 < n {
            let d = exec.get_char(i + 1);
            assert(rest@[1] == d);
            assert(rest@.skip(2) =~= exec@.skip(i + 2));
            if d == 'u' || d == 'U' || d == 'f' || d == 'F' || d == 'i' || d == 'c' || d == 'k' {
                i = i + 2;
                continue;
            } else if d == '%' {
                let piece = exec.substring_char(i, i + 1);
                assert(piece@ =~= seq!['%']);
                out.append(piece);
                assert(out@ + strip_codes(exec@.skip(i + 2)) =~= strip_codes(exec@)) by {
                    assert(strip_codes(rest@) == seq!['%'] + strip_codes(rest@.skip(2)));
                }
                i = i + 2;
                continue;
            }
        }
        let piece = exec.substring_char(i, i + 1);
        assert(piece@ =~= seq![c]);
        assert(rest@.skip(1) =~= exec@.skip(i + 1));
        out.append(piece);
        assert(out@ + strip_codes(exec@.skip(i + 1)) =~= strip_codes(exec@)) by {
            assert(strip_codes(rest@) == seq![c] + strip_codes(rest@.skip(1)));
        }
        i = i + 1;
    }
    assert(exec@.skip(n as int) =~= Seq::<char>::empty());
    assert(out@ =~= strip_codes(exec@));
    out
}

/// The number of terminal emulators that are tried.
pub const TERMINAL_COUNT: usize = 10;

/// The emulator taken when none of the table is found: `xterm`, the last entry.
pub const FALLBACK_TERMINAL: usize = 9;

/// The terminal emulators in the order they are tried, each with the flag that
/// precedes the command it runs (empty where the command follows directly).
pub open spec fn terminal_table() -> Seq<(Seq<char>, Seq<char>)> {
    seq![
        ("x-terminal-emulator"@, "-e"@),
        ("gnome-terminal"@, "--"@),
        ("konsole"@, "-e"@),
        ("xfce4-terminal"@, "-e"@),
        ("mate-terminal"@, "-e"@),
        ("tilix"@, "-e"@),
        ("alacritty"@, "-e"@),
        ("kitty"@, "--"@),
        ("foot"@, ""@),
        ("xterm"@, "-e"@),
    ]
}

/// The name and flag of the emulator at `index` in the table.
pub fn terminal_candidate(index: usize) -> (r: (&'static str, &'static str))
    requires
        index < TERMINAL_COUNT,
    ensures
        r.0@ == terminal_table()[index as int].0,
        r.1@ == terminal_table()[index as int].1,
{
    match index {
        0 => ("x-terminal-emulator", "-e"),
        1 => ("gnome-terminal", "--"),
        2 => ("konsole", "-e"),
        3 => ("xfce4-terminal", "-e"),
        4 => ("mate-terminal", "-e"),
        5 => ("tilix", "-e"),
        6 => ("alacritty", "-e"),
        7 => ("kitty", "--"),
        8 => ("foot", ""),
        _ => ("xterm", "-e"),
    }
}

/// True of `i` when `available` says the emulator at `i` is on the search path.
pub open spec fn is_available(available: Seq<bool>, i: int) -> bool {
    0 <= i < available.len() && available[i]
}

/// The first table entry that is available, or the fallback when none is.
pub open spec fn chosen_terminal(available: Seq<bool>) -> int {
    if exists|i: int| 0 <= i < TERMINAL_COUNT && is_available(available, i) {
        choose|i: int|
            0 <= i < TERMINAL_COUNT && is_available(available, i) && forall|j: int|
                0 <= j < i ==> !is_available(available, j)
    } else {
        FALLBACK_TERMINAL as int
    }
}

/// Picks the emulator to run a terminal application in: the first entry of the table
/// that `available` marks as present (entries past its end count as absent), else `xterm`.
pub fn find_terminal(available: &Vec<bool>) -> (r: usize)
    ensures
        r < TERMINAL_COUNT,
        r as int == chosen_terminal(available@),
{
    let mut i: usize = 0;
    while i < TERMINAL_COUNT
        invariant
            i <= TERMINAL_COUNT,
            forall|j: int| 0 <= j < i ==> !is_available(available@, j),
        decreases TERMINAL_COUNT - i,
    {
        if i < available.len() && available[i] {
            assert(is_available(available@, i as int));
            assert(0 <= i < TERMINAL_COUNT && is_available(available@, i as int) && forall|j: int|
                0 <= j < i ==> !is_available(available@, j));
            let ghost k = chosen_terminal(available@);
            assert(0 <= k < TERMINAL_COUNT && is_available(available@, k) && forall|j: int|
                0 <= j < k ==> !is_available(available@, j));
            proof {
                if k < i {
                    assert(!is_available(available@, k));
                }
                if k > i {
                    assert(!is_available(available@, i as int));
                }
            }
            return i;
        }
        i = i + 1;
    }
    FALLBACK_TERMINAL
}

/// `command` run inside the emulator `terminal`: name, flag if any, command, with one space
/// between each.
pub open spec fn wrap_spec(terminal: (Seq<char>, Seq<char>), command: Seq<char>) -> Seq<char> {
    if terminal.1.len() == 0 {
        terminal.0 + seq![' '] + command
    } else {
        terminal.0 + seq![' '] + terminal.1 + seq![' '] + command
    }
}

/// The template with its field codes removed and then trimmed, followed by the custom
/// arguments, verbatim after one space, when they hold anything but whitespace.
pub open spec fn base_command(exec: Seq<char>, custom_args: Option<Seq<char>>) -> Seq<char> {
    let base = trim_ws(strip_codes(exec));
    match custom_args {
        Some(a) => if trim_ws(a).len() > 0 {
            base + seq![' '] + a
        } else {
            base
        },
        None => base,
    }
}

/// The full command line for a template, wrapped in the chosen emulator when
/// `in_terminal` holds.
pub open spec fn command_spec(
    exec: Seq<char>,
    custom_args: Option<Seq<char>>,
    in_terminal: bool,
    available: Seq<bool>,
) -> Seq<char> {
    let cmd = base_command(exec, custom_args);
    if in_terminal {
        wrap_spec(terminal_table()[chosen_terminal(available)], cmd)
    } else {
        cmd
    }
}

pub open spec fn opt_str_view(o: Option<&str>) -> Option<Seq<char>> {
    match o {
        Some(s) => Some(s@),
        None => None,
    }
}

/// Wraps `command` in the emulator at index `terminal` of the table.
pub fn wrap_in_terminal(command: &str, terminal: usize) -> (r: String)
    requires
        terminal < TERMINAL_COUNT,
    ensures
        r@ == wrap_spec(terminal_table()[terminal as int], command@),
{
    let (name, flag) = terminal_candidate(terminal);
    let mut out = String::from_str(name);
    out.append(" ");
    proof {
        reveal_strlit(" ");
    }
    if flag.unicode_len() > 0 {
        out.append(flag);
        out.append(" ");
    }
    out.append(command);
    assert(out@ =~= wrap_spec(terminal_table()[terminal as int], command@));
    out
}

/// The command line that launches `app` with `custom_args`: field codes removed, the
/// template trimmed, the arguments appended when not blank, and, for a terminal
/// application, the chosen emulator in front.
pub fn build_command(app: &AppInfo, custom_args: Option<&str>, available: &Vec<bool>) -> (r:
    String)
    ensures
        r@ == command_spec(
            app.exec_template@,
            opt_str_view(custom_args),
            app.terminal,
            available@,
        ),
{
    let stripped = strip_field_codes(app.exec_template.as_str());
    let mut cmd = trim_str(stripped.as_str());
    match custom_args {
        Some(a) => {
            let trimmed = trim_str(a);
            if trimmed.as_str().unicode_len() > 0 {
                cmd.append(" ");
                proof {
                    reveal_strlit(" ");
                }
                cmd.append(a);
            }
        },
        None => {},
    }
    assert(cmd@ =~= base_command(app.exec_template@, opt_str_view(custom_args)));
    if app.terminal {
        let t = find_terminal(available);
        wrap_in_terminal(cmd.as_str(), t)
    } else {
        cmd
    }
}

/// A `%%` becomes exactly one `%`, whatever field codes or text follow it.
pub proof fn lemma_double_percent(t: Seq<char>)
    ensures
        strip_codes(seq!['%', '%'] + t) == seq!['%'] + strip_codes(t),
{
    let s = seq!['%', '%'] + t;
    assert(s.skip(2) =~= t);
}

/// Stripping never lengthens a string, and shortens every string that holds a code.
pub proof fn lemma_strip_len(s: Seq<char>)
    ensures
        strip_codes(s).len() <= s.len(),
        !has_no_codes(s) ==> strip_codes(s).len() < s.len(),
    decreases s.len(),
{
    if s.len() > 0 {
        lemma_strip_len(s.skip(1));
        if s.len() >= 2 {
            lemma_strip_len(s.skip(2));
        }
        if !has_no_codes(s) {
            let i = choose|i: int|
                !(0 <= i < s.len() - 1 && #[trigger] s[i] == '%' ==> !is_dropped_code(s[i + 1])
                    && s[i + 1] != '%');
            if i > 0 && !(s[0] == '%' && (is_dropped_code(s[1]) || s[1] == '%')) {
                let r = s.skip(1);
                assert(r[i - 1] == s[i]);
                assert(r[i - 1 + 1] == s[i + 1]);
                assert(!has_no_codes(r));
            }
        }
    }
}

/// A string without codes is left as it is.
pub proof fn lemma_strip_no_codes(s: Seq<char>)
    requires
        has_no_codes(s),
    ensures
        strip_codes(s) == s,
    decreases s.len(),
{
    if s.len() > 0 {
        let r = s.skip(1);
        assert forall|i: int| 0 <= i < r.len() - 1 && #[trigger] r[i] == '%' implies !is_dropped_code(
            r[i + 1],
        ) && r[i + 1] != '%' by {
            assert(s[i + 1] == r[i]);
            assert(s[i + 1 + 1] == r[i + 1]);
        }
        lemma_strip_no_codes(r);
        if s.len() >= 2 {
            assert(s[0] == '%' ==> !is_dropped_code(s[1]) && s[1] != '%');
        }
        assert(strip_codes(s) =~= s);
    }
}

/// Stripping leaves a string unchanged exactly when it holds no codes.
pub proof fn lemma_strip_fixed_points(s: Seq<char>)
    ensures
        strip_codes(s) == s <==> has_no_codes(s),
{
    lemma_strip_len(s);
    if has_no_codes(s) {
        lemma_strip_no_codes(s);
    }
}

/// Stripping a stripped string changes nothing, provided the first pass left no `%`
/// followed by a code or by another `%` (a `%%f` becomes `%f`, which a second pass
/// would remove).
pub proof fn lemma_strip_idempotent(x: Seq<char>)
    requires
        has_no_codes(strip_codes(x)),
    ensures
        strip_codes(strip_codes(x)) == strip_codes(x),
{
    lemma_strip_no_codes(strip_codes(x));
}

/// A terminal application for which no emulator of the table is found runs in `xterm -e`.
pub proof fn lemma_terminal_fallback(
    exec: Seq<char>,
    custom_args: Option<Seq<char>>,
    available: Seq<bool>,
)
    requires
        forall|i: int| 0 <= i < available.len() ==> !available[i],
    ensures
        command_spec(exec, custom_args, true, available) == "xterm -e "@ + base_command(
            exec,
            custom_args,
        ),
{
    assert(!exists|i: int| 0 <= i < TERMINAL_COUNT && is_available(available, i));
    reveal_strlit("xterm -e ");
    reveal_strlit("xterm");
    reveal_strlit("-e");
    assert(command_spec(exec, custom_args, true, available) =~= "xterm -e "@ + base_command(
        exec,
        custom_args,
    ));
}

} // verus!
