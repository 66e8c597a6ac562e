//! Installation of the Omarchy integration: the line added to the `theme-set` hook,
//! the systemd user unit that watches for keyboards, and recognising a ZSA keyboard
//! among USB devices.
use vstd::prelude::*;
use vstd::string::*;
use crate::text::{split_on, split_trimmed, split_trimmed_spec, trim, lemma_split_on_nonempty};

verus! {

/// The command that the `theme-set` hook runs.
pub const HOOK_COMMAND: &'static str = "voyager-disco omarchy match-theme";

/// The name of the systemd user unit that watches for keyboards.
pub const SERVICE_NAME: &'static str = "voyager-disco-watch.service";

/// The unit file up to the path of the executable.
pub const SERVICE_UNIT_HEAD: &'static str = "[Unit]\nDescription=Sync ZSA keyboard LEDs with the Omarchy theme on connect\n\n[Service]\nExecStart=";

/// The unit file after the path of the executable.
pub const SERVICE_UNIT_TAIL: &'static str = " omarchy watch\nRestart=on-failure\nRestartSec=2\n\n[Install]\nWantedBy=default.target\n";

/// The USB vendor id of ZSA, as the `idVendor` attribute writes it.
pub const ZSA_VENDOR_ATTRIBUTE: &'static str = "3297";

/// Whether a hook file already runs the command: one of its lines, trimmed of
/// whitespace, is the command.
pub open spec fn hook_installed(content: Seq<char>) -> bool {
    split_trimmed_spec(content, '\n').contains(HOOK_COMMAND@)
}

/// What the hook file holds after installation, or `None` where it is left as it is.
/// A missing file (`None`) gets the command alone; a file that already runs it is left
/// alone; any other file gets the command appended on a line of its own.
pub open spec fn hook_content_after(existing: Option<Seq<char>>) -> Option<Seq<char>> {
    match existing {
        None => Some(HOOK_COMMAND@ + "\n"@),
        Some(c) => if hook_installed(c) {
            None
        } else if c.len() > 0 && c.last() == '\n' {
            Some(c + HOOK_COMMAND@ + "\n"@)
        } else {
            Some(c + "\n"@ + HOOK_COMMAND@ + "\n"@)
        },
    }
}

/// Decides what installing the theme hook writes, from the current hook file (`None`
/// where there is none): the new content of the file, or `None` where the hook is
/// already installed and nothing is written.
pub fn install(existing_hook: Option<&str>) -> (r: Option<String>)
    ensures
        match hook_content_after(
            match existing_hook {
                Some(c) => Some(c@),
                None => None,
            },
        ) {
            None => r is None,
            Some(t) => r matches Some(s) && s@ == t,
        },
{
    match existing_hook {
        None => {
            let mut out = String::from_str(HOOK_COMMAND);
            out.append("\n");
            Some(out)
        },
        Some(content) => {
            let lines = split_trimmed(content, '\n');
            let command = String::from_str(HOOK_COMMAND);
            let mut i: usize = 0;
            while i < lines.len()
                invariant
                    0 <= i <= lines.len(),
                    lines.deep_view() == split_trimmed_spec(content@, '\n'),
                    command@ == HOOK_COMMAND@,
                    existing_hook == Some(content),
                    forall|j: int| 0 <= j < i ==> lines.deep_view()[j] != HOOK_COMMAND@,
                decreases lines.len() - i,
            {
                if lines[i] == command {
                    assert(lines.deep_view()[i as int] == HOOK_COMMAND@);
                    assert(lines.deep_view().contains(HOOK_COMMAND@));
                    return None;
                }
                i = i + 1;
            }
            assert(!lines.deep_view().contains(HOOK_COMMAND@));
            let n = content.unicode_len();
            let ends_with_newline = n > 0 && content.get_char(n - 1) == '\n';
            let mut out = String::from_str(content);
            if !ends_with_newline {
                out.append("\n");
            }
            out.append(HOOK_COMMAND);
            out.append("\n");
            Some(out)
        },
    }
}

/// The mode that makes a file executable by everyone: `mode` with the three execute
/// bits set.
pub fn executable_mode(mode: u32) -> (r: u32)
    ensures
        r == mode | 0o111u32,
{
    mode | 0o111u32
}

/// The systemd user unit that runs `exe omarchy watch`.
pub open spec fn service_unit_spec(exe: Seq<char>) -> Seq<char> {
    SERVICE_UNIT_HEAD@ + exe + SERVICE_UNIT_TAIL@
}

/// Writes the systemd user unit that runs `exe omarchy watch`, restarting on failure.
pub fn watch_service_unit(exe: &str) -> (r: String)
    ensures
        r@ == service_unit_spec(exe@),
{
    let mut out = String::from_str(SERVICE_UNIT_HEAD);
    out.append(exe);
    out.append(SERVICE_UNIT_TAIL);
    out
}

/// `c` with an ASCII upper-case letter turned to lower case.
pub open spec fn ascii_lower(c: char) -> char {
    if 'A' <= c && c <= 'Z' {
        ((c as int) + 32) as char
    } else {
        c
    }
}

/// Whether two strings are equal up to the case of ASCII letters.
pub open spec fn eq_ignore_ascii_case_spec(a: Seq<char>, b: Seq<char>) -> bool {
    a.len() == b.len() && forall|i: int| 0 <= i < a.len() ==> ascii_lower(#[trigger] a[i]) == ascii_lower(b[i])
}

fn lower(c: char) -> (r: u32)
    ensures
        r == ascii_lower(c) as u32,
{
    let n = c as u32;
    if 65 <= n && n <= 90 {
        n + 32
    } else {
        n
    }
}

/// Whether two strings are equal up to the case of ASCII letters.
pub fn eq_ignore_ascii_case(a: &str, b: &str) -> (r: bool)
    ensures
        r == eq_ignore_ascii_case_spec(a@, b@),
{
    let va = crate::text::chars_of(a);
    let vb = crate::text::chars_of(b);
    if va.len() != vb.len() {
        return false;
    }
    let mut i: usize = 0;
    while i < va.len()
        invariant
            0 <= i <= va.len(),
            va.len() == vb.len(),
            va@ == a@,
            vb@ == b@,
            forall|j: int| 0 <= j < i ==> ascii_lower(#[trigger] a@[j]) == ascii_lower(b@[j]),
        decreases va.len() - i,
    {
        if lower(va[i]) != lower(vb[i]) {
            return false;
        }
        i = i + 1;
    }
    true
}

/// Whether a USB `idVendor` attribute names ZSA.
pub fn is_zsa_vendor_attribute(value: &str) -> (r: bool)
    ensures
        r == eq_ignore_ascii_case_spec(value@, ZSA_VENDOR_ATTRIBUTE@),
{
    eq_ignore_ascii_case(value, ZSA_VENDOR_ATTRIBUTE)
}

// ---------------------------------------------------------------------------
// Laws of installation
// ---------------------------------------------------------------------------

proof fn lemma_split_on_append_plain(s: Seq<char>, y: Seq<char>, sep: char)
    requires
        !y.contains(sep),
    ensures
        split_on(s + y, sep).len() == split_on(s, sep).len(),
        split_on(s + y, sep).drop_last() == split_on(s, sep).drop_last(),
        split_on(s + y, sep).last() == split_on(s, sep).last() + y,
    decreases y.len(),
{
    lemma_split_on_nonempty(s, sep);
    if y.len() == 0 {
        assert(s + y =~= s);
        assert(split_on(s, sep).last() + y =~= split_on(s, sep).last());
    } else {
        let y0 = y.drop_last();
        assert(!y0.contains(sep)) by {
            if y0.contains(sep) {
                let j = choose|j: int| 0 <= j < y0.len() && y0[j] == sep;
                assert(y[j] == sep);
            }
        }
        lemma_split_on_append_plain(s, y0, sep);
        lemma_split_on_nonempty(s + y0, sep);
        assert((s + y).drop_last() =~= s + y0);
        assert((s + y).last() == y.last());
        assert(y.last() != sep) by {
            assert(y[y.len() - 1] == y.last());
        }
        assert(split_on(s, sep).last() + y0 + seq![y.last()] =~= split_on(s, sep).last() + y);
        assert((split_on(s, sep).last() + y0).push(y.last()) =~= split_on(s, sep).last() + y0 + seq![y.last()]);
    }
}

proof fn lemma_command_line_found(p: Seq<char>)
    requires
        p.len() == 0 || p.last() == '\n',
    ensures
        hook_installed(p + HOOK_COMMAND@ + "\n"@),
{
    reveal_strlit("voyager-disco omarchy match-theme");
    reveal_strlit("\n");
    let cmd = HOOK_COMMAND@;
    assert(!cmd.contains('\n')) by {
        if cmd.contains('\n') {
            let j = choose|j: int| 0 <= j < cmd.len() && cmd[j] == '\n';
            assert(false);
        }
    }
    lemma_split_on_nonempty(p, '\n');
    assert(split_on(p, '\n').last() =~= Seq::<char>::empty());
    lemma_split_on_append_plain(p, cmd, '\n');
    let t = p + cmd + "\n"@;
    assert(t.drop_last() =~= p + cmd);
    assert(t.last() == '\n');
    let pieces = split_on(t, '\n');
    let before = split_on(p + cmd, '\n');
    assert(pieces == before.push(Seq::<char>::empty()));
    assert(before.last() =~= cmd);
    let k = before.len() - 1;
    assert(pieces[k] == cmd);
    assert(trim(cmd) == cmd) by {
        assert(cmd[0] == 'v');
        assert(cmd.last() == 'e');
        reveal_with_fuel(crate::text::trim_start, 2);
        reveal_with_fuel(crate::text::trim_end, 2);
    }
    assert(split_trimmed_spec(t, '\n')[k] == cmd);
}

/// Installing keeps what the hook file held and adds the command as a line of its
/// own: the new content begins with the old, ends with the command and a newline, adds
/// a newline before the command only where the old content did not end with one, and
/// adds nothing else.
pub proof fn lemma_install_appends_command_line(c: Seq<char>)
    requires
        !hook_installed(c),
    ensures
        hook_content_after(Some(c)) matches Some(t) && {
            let cmd = HOOK_COMMAND@;
            &&& t.take(c.len() as int) == c
            &&& t.skip(t.len() - cmd.len() - 1) == cmd.push('\n')
            &&& (c.len() > 0 && c.last() == '\n') ==> t.len() == c.len() + cmd.len() + 1
            &&& !(c.len() > 0 && c.last() == '\n') ==> t.len() == c.len() + cmd.len() + 2 && t[c.len() as int] == '\n'
        },
{
    reveal_strlit("\n");
    let cmd = HOOK_COMMAND@;
    let t = hook_content_after(Some(c))->0;
    if c.len() > 0 && c.last() == '\n' {
        assert(t == c + cmd + "\n"@);
        assert(t.take(c.len() as int) =~= c);
        assert(t.skip(t.len() - cmd.len() - 1) =~= cmd.push('\n'));
    } else {
        assert(t == c + "\n"@ + cmd + "\n"@);
        assert(t.take(c.len() as int) =~= c);
        assert(t.skip(t.len() - cmd.len() - 1) =~= cmd.push('\n'));
    }
}

/// Installing the hook is idempotent: whatever installation writes already runs the
/// command, so installing again leaves the file as it is.
pub proof fn lemma_install_idempotent(existing: Option<Seq<char>>)
    ensures
        hook_content_after(existing) matches Some(t) ==> hook_installed(t) && hook_content_after(
            Some(t),
        ) is None,
{
    reveal_strlit("\n");
    match existing {
        None => {
            assert(Seq::<char>::empty() + HOOK_COMMAND@ + "\n"@ =~= HOOK_COMMAND@ + "\n"@);
            lemma_command_line_found(Seq::<char>::empty());
        },
        Some(c) => {
            if !hook_installed(c) {
                if c.len() > 0 && c.last() == '\n' {
                    lemma_command_line_found(c);
                } else {
                    let p = c + "\n"@;
                    assert(p.last() == '\n');
                    assert(p + HOOK_COMMAND@ + "\n"@ =~= c + "\n"@ + HOOK_COMMAND@ + "\n"@);
                    lemma_command_line_found(p);
                }
            }
        },
    }
}

} // verus!
