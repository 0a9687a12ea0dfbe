//! Reading and extending Herdr's `config.toml` so that a key opens the
//! reader, without ever overwriting a binding the user already has.

use vstd::prelude::*;
use crate::text::{
    lemma_lines_concat, lemma_lines_end_break, lemma_single_line, lemma_trim_idempotent,
    lemma_trim_push_white, lemma_trim_within,
    strip_carriage_return, contains_text, occurs_at,
    chars_equal, chars_of, find_char_from, find_first, lemma_find_first, lines_of, push_char,
    string_of, sub_chars, text_lines, text_of, trim, trim_chars, trim_end, trim_start,
};
use crate::paths::{joined_path, path_join, parent_path, path_parent};

verus! {

/// The key the reader binds on first start.
pub const KEYBINDING: &'static str = "prefix+d";

/// The plugin action that opens the reader.
pub const ACTION: &'static str = "herdr-docs.open";

/// The name of the file that records that setup already ran.
pub const MARKER_NAME: &'static str = "keybinding-v1";

/// The block appended to the configuration to bind the key.
pub const BINDING_BLOCK: &'static str = "\n# added by herdr-docs\n[[keys.command]]\nkey = \"prefix+d\"\ntype = \"plugin_action\"\ncommand = \"herdr-docs.open\"\ndescription = \"open document reader\"\n";

/// The value of `name = "value"` on one line of the configuration: the
/// line is trimmed, blank lines and comments have none, the name is what
/// stands before the first `=` (trimmed), and the value is what stands
/// between the first two quotes after it.
pub open spec fn assignment_of(line: Seq<char>, name: Seq<char>) -> Option<Seq<char>> {
    let t = trim(line);
    if t.len() == 0 || t[0] == '#' {
        None
    } else {
        match find_first(t, '=') {
            None => None,
            Some(i) => if trim(t.take(i)) != name {
                None
            } else {
                let right = trim(t.skip(i + 1));
                if right.len() == 0 || right[0] != '"' {
                    None
                } else {
                    let quoted = right.drop_first();
                    match find_first(quoted, '"') {
                        None => None,
                        Some(j) => Some(quoted.take(j)),
                    }
                }
            },
        }
    }
}

/// The value assigned to `name` on `line`, if the line is such an
/// assignment.
pub fn assignment_value(line: &str, name: &str) -> (r: Option<String>)
    ensures
        r matches Some(v) ==> assignment_of(line@, name@) == Some(v@),
        r is None ==> assignment_of(line@, name@) is None,
{
    let t = trim_chars(&chars_of(line));
    if t.len() == 0 || t[0] == '#' {
        return None;
    }
    let eq = match find_char_from(&t, 0, '=') {
        Some(i) => i,
        None => {
            assert(t@.skip(0) =~= t@);
            return None;
        },
    };
    assert(t@.skip(0) =~= t@);
    proof {
        lemma_find_first(t@, '=');
    }
    let left = trim_chars(&sub_chars(&t, 0, eq));
    assert(t@.subrange(0, eq as int) =~= t@.take(eq as int));
    if !chars_equal(&left, &chars_of(name)) {
        return None;
    }
    let right = trim_chars(&sub_chars(&t, eq + 1, t.len()));
    assert(t@.subrange(eq + 1, t@.len() as int) =~= t@.skip(eq + 1));
    if right.len() == 0 || right[0] != '"' {
        return None;
    }
    let quoted = sub_chars(&right, 1, right.len());
    assert(quoted@ =~= right@.drop_first());
    assert(quoted@.skip(0) =~= quoted@);
    match find_char_from(&quoted, 0, '"') {
        Some(j) => {
            proof {
                lemma_find_first(quoted@, '"');
            }
            let value = sub_chars(&quoted, 0, j);
            assert(value@ =~= quoted@.take(j as int));
            Some(string_of(&value))
        },
        None => None,
    }
}

/// A line reads the same once trimmed, and a value read from it is a
/// stretch of the line with no quote in it.
pub proof fn lemma_assignment_of_trimmed_line(line: Seq<char>, name: Seq<char>)
    ensures
        assignment_of(trim(line), name) == assignment_of(line, name),
        assignment_of(line, name) matches Some(v) ==> !v.contains('"') && contains_text(line, v),
{
    lemma_trim_idempotent(line);
    if assignment_of(line, name) is Some {
        let v = assignment_of(line, name)->0;
        let t = trim(line);
        let i = find_first(t, '=')->0;
        lemma_find_first(t, '=');
        let rest = t.skip(i + 1);
        let right = trim(rest);
        let quoted = right.drop_first();
        let j = find_first(quoted, '"')->0;
        lemma_find_first(quoted, '"');
        assert(v == quoted.take(j));
        assert(right.len() > 0 && right[0] == '"');
        assert(0 <= j < quoted.len());
        assert forall|k: int| 0 <= k < v.len() implies v[k] != '"' by {
            assert(v[k] == quoted[k]);
        }
        lemma_trim_within(line);
        lemma_trim_within(rest);
        let a = line.len() - trim_start(line).len();
        let c = rest.len() - trim_start(rest).len();
        let p = a + i + 2 + c;
        assert(c + right.len() <= rest.len());
        assert(rest.len() == t.len() - (i + 1));
        assert(a + t.len() <= line.len());
        assert(right == rest.subrange(c, c + right.len()));
        assert(t == line.subrange(a, a + t.len()));
        assert(line.subrange(p, p + v.len()) =~= v) by {
            assert forall|k: int| 0 <= k < v.len() implies line.subrange(p, p + v.len())[k] == v[k] by {
                assert(v[k] == right[k + 1]);
                assert(k + 1 < right.len());
                assert(right[k + 1] == rest.subrange(c, c + right.len())[k + 1]);
                assert(rest[c + k + 1] == t[i + 1 + c + k + 1]);
                assert(t[i + c + k + 2] == line.subrange(a, a + t.len())[i + c + k + 2]);
            }
        }
        assert(occurs_at(line, v, p));
    }
}

/// The values assigned to `name` on the given lines, in order.
pub open spec fn assigned_values(lines: Seq<Seq<char>>, name: Seq<char>) -> Seq<Seq<char>>
    decreases lines.len(),
{
    if lines.len() == 0 {
        seq![]
    } else {
        let rest = assigned_values(lines.drop_last(), name);
        match assignment_of(lines.last(), name) {
            Some(v) => rest.push(v),
            None => rest,
        }
    }
}

/// Some line of `config` assigns the reader's action to `command`.
pub open spec fn binds_action(config: Seq<char>) -> bool {
    exists|i: int|
        0 <= i < text_lines(config).len() && assignment_of(#[trigger] text_lines(config)[i],
            "command"@) == Some(ACTION@)
}

/// Whether the configuration already binds some key to the reader.
pub fn has_action_binding(config: &str) -> (r: bool)
    ensures
        r == binds_action(config@),
{
    let lines = lines_of(&chars_of(config));
    let mut i: usize = 0;
    while i < lines.len()
        invariant
            i <= lines@.len(),
            lines@.len() == text_lines(config@).len(),
            forall|k: int| 0 <= k < lines@.len() ==> #[trigger] lines@[k]@ == text_lines(config@)[k],
            forall|k: int|
                0 <= k < i ==> assignment_of(#[trigger] text_lines(config@)[k], "command"@) != Some(
                    ACTION@,
                ),
        decreases lines@.len() - i,
    {
        let line = string_of(&lines[i]);
        assert(line@ == text_lines(config@)[i as int]);
        match assignment_value(line.as_str(), "command") {
            Some(value) => {
                if chars_equal(&chars_of(value.as_str()), &chars_of(ACTION)) {
                    return true;
                }
            },
            None => {},
        }
        i = i + 1;
    }
    false
}

/// The keys bound anywhere in `config`, in the order they appear.
pub fn bound_keys(config: &str) -> (r: Vec<String>)
    ensures
        r@.len() == assigned_values(text_lines(config@), "key"@).len(),
        forall|k: int|
            0 <= k < r@.len() ==> #[trigger] r@[k]@ == assigned_values(text_lines(config@), "key"@)[k],
{
    let lines = lines_of(&chars_of(config));
    let ghost all = text_lines(config@);
    let mut keys: Vec<String> = Vec::new();
    let mut i: usize = 0;
    while i < lines.len()
        invariant
            i <= lines@.len(),
            lines@.len() == all.len(),
            all == text_lines(config@),
            forall|k: int| 0 <= k < lines@.len() ==> #[trigger] lines@[k]@ == all[k],
            keys@.len() == assigned_values(all.take(i as int), "key"@).len(),
            forall|k: int|
                0 <= k < keys@.len() ==> #[trigger] keys@[k]@ == assigned_values(
                    all.take(i as int),
                    "key"@,
                )[k],
        decreases lines@.len() - i,
    {
        let line = string_of(&lines[i]);
        assert(all.take(i + 1).drop_last() =~= all.take(i as int));
        assert(all.take(i + 1).last() == all[i as int]);
        match assignment_value(line.as_str(), "key") {
            Some(value) => {
                keys.push(value);
            },
            None => {},
        }
        i = i + 1;
    }
    assert(all.take(i as int) =~= all);
    keys
}

/// `existing` with the binding block appended, after a line break when
/// the text does not already end with one.
pub open spec fn appended_config(existing: Seq<char>) -> Seq<char> {
    let separated = if existing.len() > 0 && existing.last() != '\n' {
        existing.push('\n')
    } else {
        existing
    };
    separated + BINDING_BLOCK@
}

/// The configuration with the reader's key binding added at its end.
pub fn append_binding(existing: &str) -> (r: String)
    ensures
        r@ == appended_config(existing@),
{
    let chars = chars_of(existing);
    let mut body = string_of(&chars);
    if chars.len() > 0 && chars[chars.len() - 1] != '\n' {
        push_char(&mut body, '\n');
    }
    body.append(BINDING_BLOCK);
    body
}

/// What first-run setup does with the configuration it read.
pub enum StartupPlan {
    /// Some key already opens the reader: nothing is written.
    AlreadyConfigured,
    /// The reader's key is taken by something else: nothing is written.
    KeyInUse,
    /// Write `body`, after backing up the old file when `backup` is set.
    Write { backup: bool, body: String },
}

/// Decides what first-run setup does with the configuration text it read
/// (empty when there was no file).
pub fn plan_startup(existing: &str) -> (r: StartupPlan)
    ensures
        binds_action(existing@) ==> r is AlreadyConfigured,
        !binds_action(existing@) && assigned_values(text_lines(existing@), "key"@).contains(
            KEYBINDING@,
        ) ==> r is KeyInUse,
        !binds_action(existing@) && !assigned_values(text_lines(existing@), "key"@).contains(
            KEYBINDING@,
        ) ==> (r matches StartupPlan::Write { backup, body } && backup == (existing@.len() > 0)
            && body@ == appended_config(existing@)),
{
    if has_action_binding(existing) {
        return StartupPlan::AlreadyConfigured;
    }
    let keys = bound_keys(existing);
    let ghost all = assigned_values(text_lines(existing@), "key"@);
    let target = chars_of(KEYBINDING);
    let mut i: usize = 0;
    while i < keys.len()
        invariant
            i <= keys@.len(),
            keys@.len() == all.len(),
            forall|k: int| 0 <= k < keys@.len() ==> #[trigger] keys@[k]@ == all[k],
            target@ == KEYBINDING@,
            all == assigned_values(text_lines(existing@), "key"@),
            !binds_action(existing@),
            forall|k: int| 0 <= k < i ==> all[k] != KEYBINDING@,
        decreases keys@.len() - i,
    {
        if chars_equal(&chars_of(keys[i].as_str()), &target) {
            assert(all[i as int] == KEYBINDING@);
            assert(all.contains(KEYBINDING@));
            return StartupPlan::KeyInUse;
        }
        i = i + 1;
    }
    let backup = existing.as_bytes().len() > 0;
    proof {
        broadcast use vstd::utf8::encode_utf8_valid_utf8;
        if existing@.len() == 0 {
            assert(vstd::utf8::encode_utf8(existing@) =~= Seq::<u8>::empty());
        } else {
            assert(vstd::utf8::encode_utf8(existing@).len() > 0);
        }
    }
    StartupPlan::Write { backup, body: append_binding(existing) }
}

/// The first of the given plugin directories that is set and not empty.
pub open spec fn marker_directory(state_dir: Option<Seq<char>>, config_dir: Option<Seq<char>>) -> Option<Seq<char>> {
    match state_dir {
        Some(d) if d.len() > 0 => Some(d),
        _ => match config_dir {
            Some(d) if d.len() > 0 => Some(d),
            _ => None,
        },
    }
}

fn is_set(s: Option<&str>) -> (r: bool)
    ensures
        r == (s matches Some(v) && v@.len() > 0),
{
    match s {
        Some(v) => {
            proof {
                broadcast use vstd::utf8::encode_utf8_valid_utf8;
                if v@.len() == 0 {
                    assert(vstd::utf8::encode_utf8(v@) =~= Seq::<u8>::empty());
                } else {
                    assert(vstd::utf8::encode_utf8(v@).len() > 0);
                }
            }
            v.as_bytes().len() > 0
        },
        None => false,
    }
}

/// Where setup records that it already ran: a file named `MARKER_NAME`
/// in the plugin's state directory, else in its config directory, taking
/// the first that is set and not empty.
pub fn setup_marker(state_dir: Option<&str>, config_dir: Option<&str>) -> (r: Option<String>)
    ensures
        match marker_directory(text_of(state_dir), text_of(config_dir)) {
            Some(d) => r matches Some(m) && m@ == joined_path(d, MARKER_NAME@),
            None => r is None,
        },
{
    if is_set(state_dir) {
        return Some(path_join(state_dir.unwrap(), MARKER_NAME));
    }
    if is_set(config_dir) {
        return Some(path_join(config_dir.unwrap(), MARKER_NAME));
    }
    None
}

/// Where Herdr's configuration lives, from the environment: an explicit,
/// non-empty config path; else `config.toml` beside the server socket;
/// else `herdr/config.toml` under the XDG config directory, or under
/// `.config` in the home directory.
pub open spec fn config_location(
    explicit: Option<Seq<char>>,
    socket: Option<Seq<char>>,
    xdg_config_home: Option<Seq<char>>,
    home: Option<Seq<char>>,
) -> Option<Seq<char>> {
    if explicit matches Some(p) && p.len() > 0 {
        explicit
    } else if socket matches Some(s) && parent_path(s) is Some {
        Some(joined_path(parent_path(socket->0)->0, "config.toml"@))
    } else {
        let config_home = match xdg_config_home {
            Some(x) => Some(x),
            None => match home {
                Some(h) => Some(joined_path(h, ".config"@)),
                None => None,
            },
        };
        match config_home {
            Some(c) => Some(joined_path(c, "herdr/config.toml"@)),
            None => None,
        }
    }
}

/// The path of Herdr's `config.toml` given the environment's values.
pub fn config_path(
    explicit: Option<&str>,
    socket: Option<&str>,
    xdg_config_home: Option<&str>,
    home: Option<&str>,
) -> (r: Option<String>)
    ensures
        match config_location(
            text_of(explicit),
            text_of(socket),
            text_of(xdg_config_home),
            text_of(home),
        ) {
            Some(p) => r matches Some(c) && c@ == p,
            None => r is None,
        },
{
    if is_set(explicit) {
        return Some(string_of(&chars_of(explicit.unwrap())));
    }
    if let Some(s) = socket {
        if let Some(parent) = path_parent(s) {
            return Some(path_join(parent.as_str(), "config.toml"));
        }
    }
    let config_home = match xdg_config_home {
        Some(x) => string_of(&chars_of(x)),
        None => match home {
            Some(h) => path_join(h, ".config"),
            None => {
                return None;
            },
        },
    };
    Some(path_join(config_home.as_str(), "herdr/config.toml"))
}


/// Adding the binding keeps the existing configuration, unchanged, at the
/// start.
pub proof fn lemma_append_keeps_existing(existing: Seq<char>)
    ensures
        existing.is_prefix_of(appended_config(existing)),
{
    assert(appended_config(existing).subrange(0, existing.len() as int) =~= existing);
}


/// The line of the binding block that names the reader's action.
pub open spec fn action_line() -> Seq<char> {
    "command = \"herdr-docs.open\""@
}

proof fn lemma_action_line_shape()
    ensures
        trim(action_line()) == action_line(),
        find_first(action_line(), '\n') is None,
        strip_carriage_return(action_line()) == action_line(),
        action_line().len() == 27,
        action_line()[0] == 'c',
{
    reveal_strlit("command = \"herdr-docs.open\"");
    let line = action_line();
    assert(trim_start(line) =~= line) by {
        reveal_with_fuel(trim_start, 2);
    }
    assert(trim_end(line) =~= line) by {
        reveal_with_fuel(trim_end, 2);
    }
    assert(find_first(line, '\n') is None) by {
        reveal_with_fuel(find_first, 30);
    }
}

proof fn lemma_action_line_name()
    ensures
        find_first(action_line(), '=') == Some(8int),
        trim(action_line().take(8)) == "command"@,
{
    reveal_strlit("command = \"herdr-docs.open\"");
    reveal_strlit("command");
    let line = action_line();
    assert(find_first(line, '=') == Some(8int)) by {
        reveal_with_fuel(find_first, 10);
    }
    let left = line.take(8);
    assert(trim_start(left) =~= left) by {
        reveal_with_fuel(trim_start, 2);
    }
    assert(trim_end(left) =~= "command"@) by {
        reveal_with_fuel(trim_end, 3);
    }
}

proof fn lemma_action_line_value()
    ensures
        trim(action_line().skip(9)) == action_line().skip(10),
        action_line().skip(10).len() > 0,
        action_line().skip(10)[0] == '"',
        find_first(action_line().skip(11), '"') == Some(15int),
        action_line().skip(11).take(15) == ACTION@,
{
    reveal_strlit("command = \"herdr-docs.open\"");
    reveal_strlit("herdr-docs.open");
    let line = action_line();
    let right = line.skip(9);
    assert(trim_start(right) =~= line.skip(10)) by {
        reveal_with_fuel(trim_start, 3);
        assert(right.drop_first() =~= line.skip(10));
    }
    assert(trim_end(line.skip(10)) =~= line.skip(10)) by {
        reveal_with_fuel(trim_end, 2);
    }
    assert(find_first(line.skip(11), '"') == Some(15int)) by {
        reveal_with_fuel(find_first, 17);
    }
    assert(line.skip(11).take(15) =~= ACTION@);
}

proof fn lemma_command_line_assigns_action()
    ensures
        assignment_of(action_line(), "command"@) == Some(ACTION@),
        find_first(action_line(), '\n') is None,
        strip_carriage_return(action_line()) == action_line(),
{
    lemma_action_line_shape();
    lemma_action_line_name();
    lemma_action_line_value();
    let line = action_line();
    let t = trim(line);
    assert(t == line);
    let right = trim(t.skip(9));
    assert(right == line.skip(10));
    assert(right.drop_first() =~= line.skip(11));
}

proof fn lemma_binding_block_parts()
    ensures
        BINDING_BLOCK@ == "\n# added by herdr-docs\n[[keys.command]]\nkey = \"prefix+d\"\ntype = \"plugin_action\"\n"@
            + (action_line().push('\n') + "description = \"open document reader\"\n"@),
        "\n# added by herdr-docs\n[[keys.command]]\nkey = \"prefix+d\"\ntype = \"plugin_action\"\n"@.len() > 0,
        "\n# added by herdr-docs\n[[keys.command]]\nkey = \"prefix+d\"\ntype = \"plugin_action\"\n"@.last()
            == '\n',
{
    reveal_strlit("\n# added by herdr-docs\n[[keys.command]]\nkey = \"prefix+d\"\ntype = \"plugin_action\"\ncommand = \"herdr-docs.open\"\ndescription = \"open document reader\"\n");
    reveal_strlit("\n# added by herdr-docs\n[[keys.command]]\nkey = \"prefix+d\"\ntype = \"plugin_action\"\n");
    reveal_strlit("command = \"herdr-docs.open\"");
    reveal_strlit("description = \"open document reader\"\n");
    assert(BINDING_BLOCK@ =~= "\n# added by herdr-docs\n[[keys.command]]\nkey = \"prefix+d\"\ntype = \"plugin_action\"\n"@
        + (action_line().push('\n') + "description = \"open document reader\"\n"@));
}


/// The values one assignment line contributes: its value, if it has one.
spec fn line_values(value: Option<Seq<char>>) -> Seq<Seq<char>> {
    match value {
        Some(v) => seq![v],
        None => seq![],
    }
}

proof fn lemma_assigned_values_concat(a: Seq<Seq<char>>, b: Seq<Seq<char>>, name: Seq<char>)
    ensures
        assigned_values(a + b, name) == assigned_values(a, name) + assigned_values(b, name),
    decreases b.len(),
{
    if b.len() == 0 {
        assert(a + b =~= a);
        assert(assigned_values(a, name) + assigned_values(b, name) =~= assigned_values(a, name));
    } else {
        lemma_assigned_values_concat(a, b.drop_last(), name);
        assert((a + b).drop_last() =~= a + b.drop_last());
        assert((a + b).last() == b.last());
        let head = assigned_values(a, name);
        let tail = assigned_values(b.drop_last(), name);
        match assignment_of(b.last(), name) {
            Some(v) => {
                assert((head + tail).push(v) =~= head + tail.push(v));
            },
            None => {},
        }
    }
}

proof fn lemma_assigned_values_one_line(x: Seq<char>, rest: Seq<char>, name: Seq<char>)
    requires
        find_first(x, '\n') is None,
        strip_carriage_return(x) == x,
    ensures
        assigned_values(text_lines(x.push('\n') + rest), name) == line_values(assignment_of(x, name))
            + assigned_values(text_lines(rest), name),
{
    lemma_lines_concat(x.push('\n'), rest);
    lemma_single_line(x);
    lemma_assigned_values_concat(seq![x], text_lines(rest), name);
    assert(seq![x].drop_last() =~= Seq::<Seq<char>>::empty());
    assert(assigned_values(seq![x], name) =~= line_values(assignment_of(x, name))) by {
        reveal_with_fuel(assigned_values, 2);
    }
}

proof fn lemma_unnamed_block_lines()
    ensures
        find_first(""@, '\n') is None,
        strip_carriage_return(""@) == ""@,
        assignment_of(""@, "key"@) is None,
        find_first("# added by herdr-docs"@, '\n') is None,
        strip_carriage_return("# added by herdr-docs"@) == "# added by herdr-docs"@,
        assignment_of("# added by herdr-docs"@, "key"@) is None,
        find_first("[[keys.command]]"@, '\n') is None,
        strip_carriage_return("[[keys.command]]"@) == "[[keys.command]]"@,
        assignment_of("[[keys.command]]"@, "key"@) is None,
{
    reveal_strlit("");
    reveal_strlit("# added by herdr-docs");
    reveal_strlit("[[keys.command]]");
    let e = ""@;
    assert(e.len() == 0);
    assert(trim(e).len() == 0);
    let c = "# added by herdr-docs"@;
    assert(find_first(c, '\n') is None) by {
        reveal_with_fuel(find_first, 23);
    }
    assert(trim_start(c) =~= c);
    assert(trim_end(c) =~= c);
    let k = "[[keys.command]]"@;
    assert(find_first(k, '\n') is None && find_first(k, '=') is None) by {
        reveal_with_fuel(find_first, 18);
    }
    assert(trim_start(k) =~= k);
    assert(trim_end(k) =~= k);
}

proof fn lemma_key_line()
    ensures
        find_first("key = \"prefix+d\""@, '\n') is None,
        strip_carriage_return("key = \"prefix+d\""@) == "key = \"prefix+d\""@,
        assignment_of("key = \"prefix+d\""@, "key"@) == Some(KEYBINDING@),
{
    reveal_strlit("key = \"prefix+d\"");
    reveal_strlit("key");
    reveal_strlit("prefix+d");
    let line = "key = \"prefix+d\""@;
    assert(find_first(line, '\n') is None) by {
        reveal_with_fuel(find_first, 18);
    }
    assert(trim_start(line) =~= line);
    assert(trim_end(line) =~= line);
    assert(find_first(line, '=') == Some(4int)) by {
        reveal_with_fuel(find_first, 6);
    }
    let left = line.take(4);
    assert(trim_start(left) =~= left);
    assert(trim_end(left) =~= "key"@) by {
        reveal_with_fuel(trim_end, 3);
        assert(left.drop_last() =~= "key"@);
    }
    let right = line.skip(5);
    assert(trim_start(right) =~= line.skip(6)) by {
        reveal_with_fuel(trim_start, 3);
        assert(right.drop_first() =~= line.skip(6));
    }
    assert(trim_end(line.skip(6)) =~= line.skip(6));
    let quoted = line.skip(6).drop_first();
    assert(quoted =~= line.skip(7));
    assert(find_first(quoted, '"') == Some(8int)) by {
        reveal_with_fuel(find_first, 10);
    }
    assert(quoted.take(8) =~= KEYBINDING@);
}

proof fn lemma_type_line()
    ensures
        find_first("type = \"plugin_action\""@, '\n') is None,
        strip_carriage_return("type = \"plugin_action\""@) == "type = \"plugin_action\""@,
        assignment_of("type = \"plugin_action\""@, "key"@) is None,
{
    reveal_strlit("type = \"plugin_action\"");
    reveal_strlit("key");
    let line = "type = \"plugin_action\""@;
    assert(find_first(line, '\n') is None) by {
        reveal_with_fuel(find_first, 24);
    }
    assert(trim_start(line) =~= line);
    assert(trim_end(line) =~= line);
    assert(find_first(line, '=') == Some(5int)) by {
        reveal_with_fuel(find_first, 7);
    }
    let left = line.take(5);
    assert(trim_start(left) =~= left);
    assert(trim_end(left) =~= left.drop_last()) by {
        reveal_with_fuel(trim_end, 3);
    }
    assert(trim(left).len() != "key"@.len());
}

#[verifier::rlimit(40)]
proof fn lemma_description_line()
    ensures
        find_first("description = \"open document reader\""@, '\n') is None,
        strip_carriage_return("description = \"open document reader\""@)
            == "description = \"open document reader\""@,
        assignment_of("description = \"open document reader\""@, "key"@) is None,
{
    reveal_strlit("description = \"open document reader\"");
    reveal_strlit("key");
    let line = "description = \"open document reader\""@;
    assert(find_first(line, '\n') is None) by {
        reveal_with_fuel(find_first, 38);
    }
    assert(trim_start(line) =~= line);
    assert(trim_end(line) =~= line);
    assert(find_first(line, '=') == Some(12int)) by {
        reveal_with_fuel(find_first, 14);
    }
    let left = line.take(12);
    assert(trim_start(left) =~= left);
    assert(trim_end(left) =~= left.drop_last()) by {
        reveal_with_fuel(trim_end, 3);
    }
    assert(trim(left).len() != "key"@.len());
}

proof fn lemma_binding_block_keys()
    ensures
        assigned_values(text_lines(BINDING_BLOCK@), "key"@) == seq![KEYBINDING@],
{
    let l0 = ""@;
    let l1 = "# added by herdr-docs"@;
    let l2 = "[[keys.command]]"@;
    let l3 = "key = \"prefix+d\""@;
    let l4 = "type = \"plugin_action\""@;
    let l5 = action_line();
    let l6 = "description = \"open document reader\""@;
    let e = Seq::<char>::empty();
    reveal_strlit("\n# added by herdr-docs\n[[keys.command]]\nkey = \"prefix+d\"\ntype = \"plugin_action\"\ncommand = \"herdr-docs.open\"\ndescription = \"open document reader\"\n");
    reveal_strlit("");
    reveal_strlit("# added by herdr-docs");
    reveal_strlit("[[keys.command]]");
    reveal_strlit("key = \"prefix+d\"");
    reveal_strlit("type = \"plugin_action\"");
    reveal_strlit("command = \"herdr-docs.open\"");
    reveal_strlit("description = \"open document reader\"");
    let r6 = l6.push('\n') + e;
    let r5 = l5.push('\n') + r6;
    let r4 = l4.push('\n') + r5;
    let r3 = l3.push('\n') + r4;
    let r2 = l2.push('\n') + r3;
    let r1 = l1.push('\n') + r2;
    let r0 = l0.push('\n') + r1;
    assert(BINDING_BLOCK@ =~= r0);
    lemma_unnamed_block_lines();
    lemma_key_line();
    lemma_type_line();
    lemma_description_line();
    lemma_action_line_shape();
    lemma_action_line_name();
    reveal_strlit("command");
    reveal_strlit("key");
    assert(trim(action_line().take(8)).len() != "key"@.len());
    assert(assignment_of(l5, "key"@) is None);
    let name = "key"@;
    assert(assigned_values(text_lines(e), name) =~= Seq::<Seq<char>>::empty());
    lemma_assigned_values_one_line(l6, e, name);
    lemma_assigned_values_one_line(l5, r6, name);
    lemma_assigned_values_one_line(l4, r5, name);
    lemma_assigned_values_one_line(l3, r4, name);
    lemma_assigned_values_one_line(l2, r3, name);
    lemma_assigned_values_one_line(l1, r2, name);
    lemma_assigned_values_one_line(l0, r1, name);
    assert(assigned_values(text_lines(r4), name) =~= Seq::<Seq<char>>::empty());
    assert(assigned_values(text_lines(r3), name) =~= seq![KEYBINDING@]);
    assert(assigned_values(text_lines(r0), name) =~= seq![KEYBINDING@]);
}

proof fn lemma_assignment_without_carriage_return(line: Seq<char>, name: Seq<char>)
    ensures
        assignment_of(strip_carriage_return(line), name) == assignment_of(line, name),
{
    if line.len() > 0 && line.last() == '\r' {
        let body = line.drop_last();
        assert(body.push('\r') =~= line);
        lemma_trim_push_white(body, '\r');
        lemma_assignment_of_trimmed_line(line, name);
        lemma_assignment_of_trimmed_line(body, name);
    }
}

/// The keys of the configuration with the binding added are those it had,
/// in the same order, and then the reader's key.
pub proof fn lemma_appended_config_keys(existing: Seq<char>)
    ensures
        assigned_values(text_lines(appended_config(existing)), "key"@) == assigned_values(
            text_lines(existing),
            "key"@,
        ).push(KEYBINDING@),
{
    let name = "key"@;
    let separated = if existing.len() > 0 && existing.last() != '\n' {
        existing.push('\n')
    } else {
        existing
    };
    lemma_binding_block_keys();
    lemma_lines_concat(separated, BINDING_BLOCK@);
    lemma_assigned_values_concat(text_lines(separated), text_lines(BINDING_BLOCK@), name);
    if existing.len() > 0 && existing.last() != '\n' {
        lemma_lines_end_break(existing);
        let lines = text_lines(existing);
        let last = strip_carriage_return(lines.last());
        lemma_assignment_without_carriage_return(lines.last(), name);
        let broken = lines.drop_last().push(last);
        assert(broken.drop_last() =~= lines.drop_last());
        assert(assigned_values(broken, name) == assigned_values(lines, name));
    }
    assert(assigned_values(text_lines(separated), name) + seq![KEYBINDING@] =~= assigned_values(
        text_lines(separated),
        name,
    ).push(KEYBINDING@));
}

/// Once setup has added the binding, the configuration binds the reader's
/// action, so setup run again leaves it alone.
pub proof fn lemma_appended_config_binds_action(existing: Seq<char>)
    ensures
        binds_action(appended_config(existing)),
{
    let head = "\n# added by herdr-docs\n[[keys.command]]\nkey = \"prefix+d\"\ntype = \"plugin_action\"\n"@;
    let line = action_line();
    let tail = "description = \"open document reader\"\n"@;
    lemma_binding_block_parts();
    lemma_command_line_assigns_action();
    let separated = if existing.len() > 0 && existing.last() != '\n' {
        existing.push('\n')
    } else {
        existing
    };
    let before = separated + head;
    assert(before.last() == '\n');
    assert(appended_config(existing) =~= before + (line.push('\n') + tail));
    lemma_lines_concat(before, line.push('\n') + tail);
    lemma_lines_concat(line.push('\n'), tail);
    lemma_single_line(line);
    assert(strip_carriage_return(line) == line);
    let lines = text_lines(appended_config(existing));
    let i = text_lines(before).len() as int;
    assert(lines =~= text_lines(before) + (seq![line] + text_lines(tail)));
    assert(lines[i] == line);
    assert(assignment_of(lines[i], "command"@) == Some(ACTION@));
}

/// Where setup looks for Herdr's configuration, in order of precedence:
/// an explicit, non-empty config path wins whatever else is set; else,
/// when the server's socket path has a parent directory, `config.toml` in
/// that directory, whatever the XDG and home directories are; else
/// `herdr/config.toml` under the XDG config directory, or under `.config`
/// in the home directory, or nowhere.
pub proof fn lemma_config_location_precedence(
    explicit: Option<Seq<char>>,
    socket: Option<Seq<char>>,
    xdg_config_home: Option<Seq<char>>,
    home: Option<Seq<char>>,
)
    ensures
        explicit is Some && explicit->0.len() > 0 ==> config_location(
            explicit,
            socket,
            xdg_config_home,
            home,
        ) == explicit,
        !(explicit is Some && explicit->0.len() > 0) && socket is Some && parent_path(socket->0) is Some
            ==> config_location(explicit, socket, xdg_config_home, home) == Some(
            joined_path(parent_path(socket->0)->0, "config.toml"@),
        ),
        !(explicit is Some && explicit->0.len() > 0) && !(socket is Some && parent_path(socket->0) is Some)
            ==> config_location(explicit, socket, xdg_config_home, home) == match xdg_config_home {
            Some(x) => Some(joined_path(x, "herdr/config.toml"@)),
            None => match home {
                Some(h) => Some(joined_path(joined_path(h, ".config"@), "herdr/config.toml"@)),
                None => None,
            },
        },
{
}

} // verus!
