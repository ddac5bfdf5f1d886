//! Launch commands: the argument vector of a launcher entry's command.

use vstd::prelude::*;
use crate::text::{
    Separator, clean_piece, is_separator, is_white_space, lemma_split_pieces_clean, split_str,
    string_views, str_eq, to_chars, words,
};

verus! {

/// Commands to run for each launcher entry.
pub struct Command {
    /// The command line of the entry (`Exec` of a desktop file).
    pub command: String,
    /// Whether to run this command in a terminal (TUI apps).
    pub terminal: bool,
}

/// The model of a command.
pub struct CommandModel {
    pub command: Seq<char>,
    pub terminal: bool,
}

impl View for Command {
    type V = CommandModel;

    open spec fn view(&self) -> CommandModel {
        CommandModel { command: self.command@, terminal: self.terminal }
    }
}

impl Command {
    /// A copy of the command.
    pub fn duplicate(&self) -> (r: Command)
        ensures
            r == *self,
    {
        Command { command: self.command.clone(), terminal: self.terminal }
    }
}

/// Field codes of freedesktop `Exec` lines that the launcher does not fill in
/// and leaves out of the command: `%U`, `%u`, `%F`, `%f`, `@@` and `@@u`.
pub open spec fn is_template_arg(a: Seq<char>) -> bool {
    ||| a == seq!['%', 'U']
    ||| a == seq!['%', 'u']
    ||| a == seq!['%', 'F']
    ||| a == seq!['%', 'f']
    ||| a == seq!['@', '@']
    ||| a == seq!['@', '@', 'u']
}

fn template_arg(a: &str) -> (r: bool)
    ensures
        r == is_template_arg(a@),
{
    let c = to_chars(a);
    let n = c.len();
    let r = (n == 2 && c[0] == '%' && (c[1] == 'U' || c[1] == 'u' || c[1] == 'F' || c[1] == 'f'))
        || (n == 2 && c[0] == '@' && c[1] == '@') || (n == 3 && c[0] == '@' && c[1] == '@' && c[2]
        == 'u');
    proof {
        if n == 2 {
            assert(c@ =~= seq![c@[0], c@[1]]);
        }
        if n == 3 {
            assert(c@ =~= seq![c@[0], c@[1], c@[2]]);
        }
    }
    r
}

/// The arguments of a command line: its words, without template field codes.
pub open spec fn command_args(command: Seq<char>) -> Seq<Seq<char>> {
    words(command).filter(|a: Seq<char>| !is_template_arg(a))
}

/// The arguments of a command are its words that are not template field
/// codes: none of them is a field code, empty, or holds white space.
pub proof fn lemma_command_args_clean(command: Seq<char>)
    ensures
        forall|j: int|
            0 <= j < command_args(command).len() ==> {
                let a = #[trigger] command_args(command)[j];
                &&& !is_template_arg(a)
                &&& a.len() > 0
                &&& forall|i: int| 0 <= i < a.len() ==> !is_white_space(#[trigger] a[i])
            },
{
    let ws = words(command);
    let pred = |a: Seq<char>| !is_template_arg(a);
    lemma_split_pieces_clean(command, Separator::WhiteSpace, false);
    assert forall|j: int| 0 <= j < command_args(command).len() implies {
        let a = #[trigger] command_args(command)[j];
        &&& !is_template_arg(a)
        &&& a.len() > 0
        &&& forall|i: int| 0 <= i < a.len() ==> !is_white_space(#[trigger] a[i])
    } by {
        let a = command_args(command)[j];
        ws.lemma_filter_pred(pred, j);
        assert(ws.filter(pred).contains(a));
        ws.lemma_filter_contains_rev(pred, a);
        assert(ws.contains(a));
        let k = choose|k: int| 0 <= k < ws.len() && ws[k] == a;
        assert(clean_piece(ws[k], Separator::WhiteSpace, false));
        assert forall|i: int| 0 <= i < a.len() implies !is_white_space(#[trigger] a[i]) by {
            assert(!is_separator(Separator::WhiteSpace, a[i]));
        }
    }
}

/// The arguments taken from a command line are its words in order, less
/// the freedesktop field codes `%U`, `%u`, `%F`, `%f`, `@@` and `@@u`: none of
/// those six words is ever an argument, and every other word is one.
pub proof fn lemma_command_args_field_codes(command: Seq<char>)
    ensures
        forall|j: int|
            0 <= j < command_args(command).len() ==> {
                let a = #[trigger] command_args(command)[j];
                &&& a != seq!['%', 'U']
                &&& a != seq!['%', 'u']
                &&& a != seq!['%', 'F']
                &&& a != seq!['%', 'f']
                &&& a != seq!['@', '@']
                &&& a != seq!['@', '@', 'u']
            },
        forall|w: Seq<char>|
            #![trigger words(command).contains(w)]
            words(command).contains(w) && w != seq!['%', 'U'] && w != seq!['%', 'u'] && w != seq![
                '%',
                'F',
            ] && w != seq!['%', 'f'] && w != seq!['@', '@'] && w != seq!['@', '@', 'u']
                ==> command_args(command).contains(w),
        forall|a: Seq<char>|
            #![trigger command_args(command).contains(a)]
            command_args(command).contains(a) ==> words(command).contains(a),
{
    let ws = words(command);
    let pred = |a: Seq<char>| !is_template_arg(a);
    lemma_command_args_clean(command);
    assert forall|w: Seq<char>|
        #![trigger words(command).contains(w)]
        words(command).contains(w) && w != seq!['%', 'U'] && w != seq!['%', 'u'] && w != seq![
            '%',
            'F',
        ] && w != seq!['%', 'f'] && w != seq!['@', '@'] && w != seq!['@', '@', 'u']
            implies command_args(command).contains(w) by {
        let i = choose|i: int| 0 <= i < ws.len() && ws[i] == w;
        assert(pred(ws[i]));
        ws.lemma_filter_contains(pred, i);
    }
    assert forall|a: Seq<char>|
        #![trigger command_args(command).contains(a)]
        command_args(command).contains(a) implies words(command).contains(a) by {
        ws.lemma_filter_contains_rev(pred, a);
    }
}

/// The argument vector to run an entry: the terminal command, only when the
/// entry runs in a terminal, then the arguments of the command line, none of
/// which is one of the field codes `%U`, `%u`, `%F`, `%f`, `@@`, `@@u`.
pub proof fn lemma_command_line_shape(cmd: Command, terminal: Seq<Seq<char>>)
    ensures
        ({
            let r = command_line_spec(cmd, terminal);
            let k = if cmd.terminal {
                terminal.len() as int
            } else {
                0
            };
            &&& cmd.terminal ==> r.take(k) == terminal
            &&& r.skip(k) == command_args(cmd.command@)
            &&& forall|j: int|
                k <= j < r.len() ==> {
                    let a = #[trigger] r[j];
                    &&& a != seq!['%', 'U']
                    &&& a != seq!['%', 'u']
                    &&& a != seq!['%', 'F']
                    &&& a != seq!['%', 'f']
                    &&& a != seq!['@', '@']
                    &&& a != seq!['@', '@', 'u']
                }
        }),
{
    let r = command_line_spec(cmd, terminal);
    let args = command_args(cmd.command@);
    lemma_command_args_field_codes(cmd.command@);
    if cmd.terminal {
        assert(r.take(terminal.len() as int) =~= terminal);
        assert(r.skip(terminal.len() as int) =~= args);
        assert forall|j: int| terminal.len() <= j < r.len() implies {
            let a = #[trigger] r[j];
            &&& a != seq!['%', 'U']
            &&& a != seq!['%', 'u']
            &&& a != seq!['%', 'F']
            &&& a != seq!['%', 'f']
            &&& a != seq!['@', '@']
            &&& a != seq!['@', '@', 'u']
        } by {
            assert(r[j] == args[j - terminal.len()]);
        }
    } else {
        assert(r.skip(0) =~= args);
    }
}

/// The full argument vector: the terminal command in front of the
/// arguments when the command runs in a terminal.
pub open spec fn command_line_spec(cmd: Command, terminal: Seq<Seq<char>>) -> Seq<Seq<char>> {
    if cmd.terminal {
        terminal + command_args(cmd.command@)
    } else {
        command_args(cmd.command@)
    }
}

/// The terminal to run TUI commands in: `$TERMINAL` when set, else the one
/// of the desktop environment (`$XDG_CURRENT_DESKTOP`), else `xterm`.
pub open spec fn default_terminal_spec(terminal: Option<Seq<char>>, desktop: Option<Seq<char>>) -> Seq<
    Seq<char>,
> {
    match terminal {
        Some(t) => seq![t],
        None => {
            if desktop == Some("GNOME"@) {
                seq!["kgx"@, "-e"@]
            } else if desktop == Some("KDE"@) {
                seq!["konsole"@]
            } else if desktop == Some("XFCE"@) {
                seq!["xfce4-terminal"@]
            } else if desktop == Some("LXQt"@) {
                seq!["lxterminal"@]
            } else {
                seq!["xterm"@]
            }
        },
    }
}

/// The default terminal, given the values of `$TERMINAL` and
/// `$XDG_CURRENT_DESKTOP` (`None` when unset).
pub fn get_default_terminal(terminal: Option<&str>, desktop_environment: Option<&str>) -> (r: Vec<
    String,
>)
    ensures
        string_views(r@) == default_terminal_spec(
            match terminal {
                Some(t) => Some(t@),
                None => None,
            },
            match desktop_environment {
                Some(d) => Some(d@),
                None => None,
            },
        ),
{
    let mut r: Vec<String> = Vec::new();
    match terminal {
        Some(t) => {
            r.push(String::from_str(t));
            assert(string_views(r@) =~= seq![t@]);
            return r;
        },
        None => {},
    }
    match desktop_environment {
        Some(d) => {
            if str_eq(d, "GNOME") {
                r.push(String::from_str("kgx"));
                r.push(String::from_str("-e"));
                assert(string_views(r@) =~= seq!["kgx"@, "-e"@]);
                return r;
            } else if str_eq(d, "KDE") {
                r.push(String::from_str("konsole"));
                assert(string_views(r@) =~= seq!["konsole"@]);
                return r;
            } else if str_eq(d, "XFCE") {
                r.push(String::from_str("xfce4-terminal"));
                assert(string_views(r@) =~= seq!["xfce4-terminal"@]);
                return r;
            } else if str_eq(d, "LXQt") {
                r.push(String::from_str("lxterminal"));
                assert(string_views(r@) =~= seq!["lxterminal"@]);
                return r;
            }
        },
        None => {},
    }
    r.push(String::from_str("xterm"));
    assert(string_views(r@) =~= seq!["xterm"@]);
    r
}

/// The argument vector to run: the words of the command without template
/// field codes, after the terminal command when the entry runs in a terminal.
pub fn command_line(cmd: &Command, terminal: Vec<String>) -> (r: Vec<String>)
    ensures
        string_views(r@) == command_line_spec(*cmd, string_views(terminal@)),
{
    let pieces = split_str(cmd.command.as_str(), Separator::WhiteSpace, false);
    let ghost ws = string_views(pieces@);
    let ghost pred = |a: Seq<char>| !is_template_arg(a);
    let mut r: Vec<String> = if cmd.terminal {
        terminal
    } else {
        Vec::new()
    };
    let ghost prefix = string_views(r@);
    let mut i: usize = 0;
    assert(ws.take(0).filter(pred) =~= Seq::<Seq<char>>::empty()) by {
        reveal(Seq::filter);
    }
    assert(prefix + ws.take(0).filter(pred) =~= prefix);
    while i < pieces.len()
        invariant
            i <= pieces.len(),
            ws == string_views(pieces@),
            ws == words(cmd.command@),
            pred == (|a: Seq<char>| !is_template_arg(a)),
            string_views(r@) == prefix + ws.take(i as int).filter(pred),
        decreases pieces.len() - i,
    {
        let ghost before = ws.take(i as int);
        assert(ws.take(i + 1) =~= before.push(ws[i as int]));
        proof {
            before.lemma_filter_push(ws[i as int], pred);
        }
        let keep = !template_arg(pieces[i].as_str());
        assert(ws[i as int] == pieces@[i as int]@);
        assert(keep == pred(ws[i as int]));
        if keep {
            let ghost old_r = string_views(r@);
            let piece = pieces[i].clone();
            r.push(piece);
            assert(string_views(r@) =~= old_r.push(ws[i as int]));
            assert(string_views(r@) =~= prefix + ws.take(i + 1).filter(pred));
        }
        i = i + 1;
    }
    assert(ws.take(i as int) =~= ws);
    r
}

/// The directory commands run in: `$HOME`, or the current directory when
/// it is unset.
pub fn working_directory(home: Option<String>) -> (r: String)
    ensures
        r@ == match home {
            Some(h) => h@,
            None => "."@,
        },
{
    match home {
        Some(h) => h,
        None => String::from_str("."),
    }
}

} // verus!
