//! Mission script interpreter and automated command execution runner.
//!
//! A script is read line by line. Each line is split into whitespace-separated words;
//! blank lines and lines whose first word starts with `#` or `//` are skipped. The first
//! word, upper-cased, names the command; the others are its arguments.

use vstd::prelude::*;
use vstd::string::*;
use crate::text::{
    char_is_whitespace, chars_of, decimal, decimal_string, float_literal, float_literal_at,
    is_whitespace, to_uppercase, uppercase,
};

verus! {

broadcast use vstd::string::group_string_axioms;

/// Discrete mission commands executable by the autonomous script runner.
///
/// Numbers are kept as the script wrote them; each is a literal that `str::parse::<f64>`
/// accepts (see [`float_literal`]).
#[derive(Debug, Clone, PartialEq)]
pub enum MissionCommand {
    Takeoff { altitude: String },
    Goto { x: String, y: String, altitude: String },
    Wait { seconds: String },
    InjectFault { fault_name: String },
    ClearFaults,
    ReturnHome,
    Land,
    EmergencyLand,
}

/// A mission command with its texts taken as character sequences.
pub enum CommandView {
    Takeoff { altitude: Seq<char> },
    Goto { x: Seq<char>, y: Seq<char>, altitude: Seq<char> },
    Wait { seconds: Seq<char> },
    InjectFault { fault_name: Seq<char> },
    ClearFaults,
    ReturnHome,
    Land,
    EmergencyLand,
}

impl View for MissionCommand {
    type V = CommandView;

    open spec fn view(&self) -> CommandView {
        match self {
            MissionCommand::Takeoff { altitude } => CommandView::Takeoff { altitude: altitude@ },
            MissionCommand::Goto { x, y, altitude } => CommandView::Goto {
                x: x@,
                y: y@,
                altitude: altitude@,
            },
            MissionCommand::Wait { seconds } => CommandView::Wait { seconds: seconds@ },
            MissionCommand::InjectFault { fault_name } => CommandView::InjectFault {
                fault_name: fault_name@,
            },
            MissionCommand::ClearFaults => CommandView::ClearFaults,
            MissionCommand::ReturnHome => CommandView::ReturnHome,
            MissionCommand::Land => CommandView::Land,
            MissionCommand::EmergencyLand => CommandView::EmergencyLand,
        }
    }
}

/// The views of a sequence of commands.
pub open spec fn commands_view(s: Seq<MissionCommand>) -> Seq<CommandView> {
    s.map_values(|c: MissionCommand| c@)
}

/// The views of a sequence of strings.
pub open spec fn strings_view(s: Seq<String>) -> Seq<Seq<char>> {
    s.map_values(|x: String| x@)
}

/// The view of a command, or of the error text.
pub open spec fn command_result_view(r: Result<MissionCommand, String>) -> Result<CommandView, Seq<char>> {
    match r {
        Ok(c) => Ok(c@),
        Err(e) => Err(e@),
    }
}

/// An error message that names the script line it comes from: `Line <n>: <msg>`.
pub open spec fn line_error(n: nat, msg: Seq<char>) -> Seq<char> {
    "Line "@ + decimal(n) + ": "@ + msg
}

/// The altitude of a `TAKEOFF` without an argument.
pub open spec fn default_takeoff_altitude() -> Seq<char> {
    "15"@
}

/// The command that line `n` gives, from its upper-cased first word `name` and the words
/// after it, `args`; or the error that refuses the line.
pub open spec fn command_outcome(n: nat, name: Seq<char>, args: Seq<Seq<char>>) -> Result<
    CommandView,
    Seq<char>,
> {
    if name == "TAKEOFF"@ {
        if args.len() == 0 {
            Ok(CommandView::Takeoff { altitude: default_takeoff_altitude() })
        } else if float_literal(args[0]) {
            Ok(CommandView::Takeoff { altitude: args[0] })
        } else {
            Err(line_error(n, "invalid altitude"@))
        }
    } else if name == "GOTO"@ {
        if args.len() < 3 {
            Err(line_error(n, "GOTO requires x, y, altitude arguments"@))
        } else if !float_literal(args[0]) {
            Err(line_error(n, "invalid x"@))
        } else if !float_literal(args[1]) {
            Err(line_error(n, "invalid y"@))
        } else if !float_literal(args[2]) {
            Err(line_error(n, "invalid altitude"@))
        } else {
            Ok(CommandView::Goto { x: args[0], y: args[1], altitude: args[2] })
        }
    } else if name == "WAIT"@ {
        if args.len() == 0 {
            Err(line_error(n, "WAIT requires duration in seconds"@))
        } else if !float_literal(args[0]) {
            Err(line_error(n, "invalid wait duration"@))
        } else {
            Ok(CommandView::Wait { seconds: args[0] })
        }
    } else if name == "INJECT"@ {
        if args.len() == 0 {
            Err(line_error(n, "INJECT requires fault name (e.g. GPS_DRIFT, LIDAR_FAILURE)"@))
        } else {
            Ok(CommandView::InjectFault { fault_name: uppercase(args[0]) })
        }
    } else if name == "CLEAR_FAULTS"@ {
        Ok(CommandView::ClearFaults)
    } else if name == "RETURN_HOME"@ || name == "RTH"@ {
        Ok(CommandView::ReturnHome)
    } else if name == "LAND"@ {
        Ok(CommandView::Land)
    } else if name == "EMERGENCY_LAND"@ {
        Ok(CommandView::EmergencyLand)
    } else {
        Err(line_error(n, "unrecognized command '"@ + name + "'"@))
    }
}

/// Renders `Line <n>: <msg>`.
fn line_error_text(n: usize, msg: &str) -> (e: String)
    ensures
        e@ == line_error(n as nat, msg@),
{
    let mut e = "Line ".to_string();
    let d = decimal_string(n);
    e.append(d.as_str());
    e.append(": ");
    e.append(msg);
    proof {
        assert(e@ =~= line_error(n as nat, msg@));
    }
    e
}

/// Whether `str::parse::<f64>` accepts `s`.
pub fn is_float_literal(s: &str) -> (b: bool)
    ensures
        b == float_literal(s@),
{
    let chars = chars_of(s);
    proof {
        assert(chars@.subrange(0, chars@.len() as int) =~= s@);
    }
    float_literal_at(&chars, 0, chars.len())
}

/// The command that line `line_no` of a script gives: `name` is the line's first word,
/// already upper-cased, and `args` are the words after it.
pub fn command_from_words(line_no: usize, name: &str, args: &Vec<String>) -> (r: Result<
    MissionCommand,
    String,
>)
    ensures
        command_result_view(r) == command_outcome(line_no as nat, name@, strings_view(args@)),
{
    let ghost a = strings_view(args@);
    proof {
        reveal_strlit("TAKEOFF");
        reveal_strlit("GOTO");
        reveal_strlit("WAIT");
        reveal_strlit("INJECT");
        reveal_strlit("CLEAR_FAULTS");
        reveal_strlit("RETURN_HOME");
        reveal_strlit("RTH");
        reveal_strlit("LAND");
        reveal_strlit("EMERGENCY_LAND");
        reveal_strlit("15");
        assert(args.len() > 0 ==> a[0] == args@[0]@);
        assert(args.len() > 1 ==> a[1] == args@[1]@);
        assert(args.len() > 2 ==> a[2] == args@[2]@);
    }
    let cmd = name.to_string();
    if cmd == "TAKEOFF".to_string() {
        if args.len() == 0 {
            Ok(MissionCommand::Takeoff { altitude: "15".to_string() })
        } else if is_float_literal(args[0].as_str()) {
            Ok(MissionCommand::Takeoff { altitude: args[0].clone() })
        } else {
            Err(line_error_text(line_no, "invalid altitude"))
        }
    } else if cmd == "GOTO".to_string() {
        if args.len() < 3 {
            Err(line_error_text(line_no, "GOTO requires x, y, altitude arguments"))
        } else if !is_float_literal(args[0].as_str()) {
            Err(line_error_text(line_no, "invalid x"))
        } else if !is_float_literal(args[1].as_str()) {
            Err(line_error_text(line_no, "invalid y"))
        } else if !is_float_literal(args[2].as_str()) {
            Err(line_error_text(line_no, "invalid altitude"))
        } else {
            Ok(
                MissionCommand::Goto {
                    x: args[0].clone(),
                    y: args[1].clone(),
                    altitude: args[2].clone(),
                },
            )
        }
    } else if cmd == "WAIT".to_string() {
        if args.len() == 0 {
            Err(line_error_text(line_no, "WAIT requires duration in seconds"))
        } else if !is_float_literal(args[0].as_str()) {
            Err(line_error_text(line_no, "invalid wait duration"))
        } else {
            Ok(MissionCommand::Wait { seconds: args[0].clone() })
        }
    } else if cmd == "INJECT".to_string() {
        if args.len() == 0 {
            Err(
                line_error_text(
                    line_no,
                    "INJECT requires fault name (e.g. GPS_DRIFT, LIDAR_FAILURE)",
                ),
            )
        } else {
            Ok(MissionCommand::InjectFault { fault_name: to_uppercase(args[0].as_str()) })
        }
    } else if cmd == "CLEAR_FAULTS".to_string() {
        Ok(MissionCommand::ClearFaults)
    } else if cmd == "RETURN_HOME".to_string() || cmd == "RTH".to_string() {
        Ok(MissionCommand::ReturnHome)
    } else if cmd == "LAND".to_string() {
        Ok(MissionCommand::Land)
    } else if cmd == "EMERGENCY_LAND".to_string() {
        Ok(MissionCommand::EmergencyLand)
    } else {
        let mut msg = "unrecognized command '".to_string();
        msg.append(name);
        msg.append("'");
        proof {
            assert(msg@ =~= "unrecognized command '"@ + name@ + "'"@);
        }
        Err(line_error_text(line_no, msg.as_str()))
    }
}

/// The words of `s`: its maximal runs of non-whitespace characters, in order
/// (`str::split_whitespace`).
pub open spec fn words(s: Seq<char>) -> Seq<Seq<char>>
    decreases s.len(),
{
    if s.len() == 0 {
        seq![]
    } else {
        let w = words(s.drop_last());
        let c = s.last();
        if is_whitespace(c) {
            w
        } else if s.len() >= 2 && !is_whitespace(s[s.len() - 2]) {
            w.update(w.len() - 1, w.last().push(c))
        } else {
            w.push(seq![c])
        }
    }
}

/// The texts of character spans of `cs`.
pub open spec fn spans_text(cs: Seq<char>, spans: Seq<(usize, usize)>) -> Seq<Seq<char>> {
    spans.map_values(|p: (usize, usize)| cs.subrange(p.0 as int, p.1 as int))
}

/// The spans of the words of `chars[a..b]`.
fn word_spans(chars: &Vec<char>, a: usize, b: usize) -> (spans: Vec<(usize, usize)>)
    requires
        a <= b <= chars.len(),
    ensures
        spans_text(chars@, spans@) == words(chars@.subrange(a as int, b as int)),
        forall|k: int| 0 <= k < spans.len() ==> a <= #[trigger] spans[k].0 < spans[k].1 <= b,
{
    let mut spans: Vec<(usize, usize)> = Vec::new();
    let mut i: usize = a;
    proof {
        assert(chars@.subrange(a as int, a as int) =~= Seq::<char>::empty());
        assert(spans_text(chars@, spans@) =~= Seq::<Seq<char>>::empty());
    }
    while i < b
        invariant
            a <= i <= b <= chars.len(),
            spans_text(chars@, spans@) == words(chars@.subrange(a as int, i as int)),
            forall|k: int| 0 <= k < spans.len() ==> a <= #[trigger] spans[k].0 < spans[k].1 <= i,
            (i > a && !is_whitespace(chars@[i - 1])) ==> spans.len() > 0 && spans@.last().1 == i,
        decreases b - i,
    {
        let c = chars[i];
        let ghost sub = chars@.subrange(a as int, i + 1);
        let ghost old_spans = spans@;
        proof {
            assert(sub.drop_last() =~= chars@.subrange(a as int, i as int));
            assert(sub.last() == c);
            if sub.len() >= 2 {
                assert(sub[sub.len() - 2] == chars@[i - 1]);
            }
        }
        if char_is_whitespace(c) {
        } else if i > a && !char_is_whitespace(chars[i - 1]) {
            let last = spans.len() - 1;
            let (st, _en) = spans[last];
            assert(a <= spans[last as int].0);
            spans.set(last, (st, i + 1));
            proof {
                assert forall|k: int| 0 <= k < spans.len() implies a <= #[trigger] spans[k].0
                    < spans[k].1 <= i + 1 by {
                    if k != last {
                        assert(spans[k] == old_spans[k]);
                    }
                }
                let w = words(chars@.subrange(a as int, i as int));
                assert(chars@.subrange(st as int, i + 1) =~= chars@.subrange(st as int, i as int).push(c));
                assert(spans_text(chars@, spans@) =~= w.update(w.len() - 1, w.last().push(c)));
            }
        } else {
            spans.push((i, i + 1));
            proof {
                let w = words(chars@.subrange(a as int, i as int));
                assert(chars@.subrange(i as int, i + 1) =~= seq![c]);
                assert(spans_text(chars@, spans@) =~= w.push(seq![c]));
            }
        }
        i = i + 1;
    }
    spans
}

/// A first word that starts a comment: `#...` or `//...`.
pub open spec fn is_comment(w: Seq<char>) -> bool {
    w[0] == '#' || (w.len() >= 2 && w[0] == '/' && w[1] == '/')
}

/// What line `n` of a script gives: nothing for a blank or comment line, else the command
/// its words name, or the error that refuses it.
pub open spec fn parse_line(line: Seq<char>, n: nat) -> Result<Option<CommandView>, Seq<char>> {
    let ws = words(line);
    if ws.len() == 0 || is_comment(ws[0]) {
        Ok(None)
    } else {
        match command_outcome(n, uppercase(ws[0]), ws.drop_first()) {
            Ok(c) => Ok(Some(c)),
            Err(e) => Err(e),
        }
    }
}

/// The view of what a line gives.
pub open spec fn line_result_view(r: Result<Option<MissionCommand>, String>) -> Result<
    Option<CommandView>,
    Seq<char>,
> {
    match r {
        Ok(Some(c)) => Ok(Some(c@)),
        Ok(None) => Ok(None),
        Err(e) => Err(e@),
    }
}

/// Parses the line `script[a..b]`, which is line `line_no` of the script.
fn parse_line_at(script: &str, chars: &Vec<char>, a: usize, b: usize, line_no: usize) -> (r: Result<
    Option<MissionCommand>,
    String,
>)
    requires
        chars@ == script@,
        a <= b <= chars.len(),
    ensures
        line_result_view(r) == parse_line(chars@.subrange(a as int, b as int), line_no as nat),
{
    let spans = word_spans(chars, a, b);
    let ghost ws = words(chars@.subrange(a as int, b as int));
    if spans.len() == 0 {
        return Ok(None);
    }
    let (s0, e0) = spans[0];
    proof {
        assert(ws.len() == spans.len());
        assert(ws[0] == chars@.subrange(s0 as int, e0 as int));
        assert(ws[0][0] == chars@[s0 as int]);
        if e0 - s0 >= 2 {
            assert(ws[0][1] == chars@[s0 + 1]);
        }
    }
    if chars[s0] == '#' || (e0 - s0 >= 2 && chars[s0] == '/' && chars[s0 + 1] == '/') {
        return Ok(None);
    }
    let name = to_uppercase(script.substring_char(s0, e0));
    let mut args: Vec<String> = Vec::new();
    let mut k: usize = 1;
    while k < spans.len()
        invariant
            1 <= k <= spans.len(),
            chars@ == script@,
            b <= chars.len(),
            spans_text(chars@, spans@) == ws,
            ws.len() == spans.len(),
            forall|j: int| 0 <= j < spans.len() ==> a <= #[trigger] spans[j].0 < spans[j].1 <= b,
            strings_view(args@) == ws.subrange(1, k as int),
        decreases spans.len() - k,
    {
        let (s, e) = spans[k];
        assert(ws.subrange(1, k as int).len() == k - 1);
        assert(strings_view(args@).len() == args@.len());
        let w = String::from_str(script.substring_char(s, e));
        let ghost old_args = args@;
        args.push(w);
        proof {
            assert(ws[k as int] == chars@.subrange(s as int, e as int));
            assert(old_args.len() == k - 1);
            assert(strings_view(args@).len() == k);
            assert forall|j: int| 0 <= j < k implies #[trigger] strings_view(args@)[j] == ws.subrange(
                1,
                k + 1,
            )[j] by {
                if j < k - 1 {
                    assert(args@[j] == old_args[j]);
                    assert(strings_view(old_args)[j] == ws.subrange(1, k as int)[j]);
                } else {
                    assert(args@[j] == w);
                }
            }
            assert(strings_view(args@) =~= ws.subrange(1, k + 1));
        }
        k = k + 1;
    }
    proof {
        assert(ws.drop_first() =~= ws.subrange(1, spans.len() as int));
    }
    match command_from_words(line_no, name.as_str(), &args) {
        Ok(c) => Ok(Some(c)),
        Err(e) => Err(e),
    }
}

/// The pieces of `s` between its newline characters, in order: one more piece than there
/// are newlines.
pub open spec fn pieces(s: Seq<char>) -> Seq<Seq<char>>
    decreases s.len(),
{
    if s.len() == 0 {
        seq![Seq::empty()]
    } else {
        let p = pieces(s.drop_last());
        if s.last() == '\n' {
            p.push(Seq::empty())
        } else {
            p.update(p.len() - 1, p.last().push(s.last()))
        }
    }
}

/// The lines of a script: the pieces between newlines, without the empty piece that
/// follows a final newline (so an empty script has no line). This is how `str::lines`
/// splits, except that a carriage return before a newline stays at the end of its line,
/// where it is whitespace like any other and changes no word.
pub open spec fn script_lines(s: Seq<char>) -> Seq<Seq<char>> {
    if s.len() > 0 && s.last() != '\n' {
        pieces(s)
    } else {
        pieces(s).drop_last()
    }
}

/// What the lines `ls` give, read in order: the commands of all of them, or the error of
/// the first line that is refused. Line numbers start at 1.
pub open spec fn parse_all(ls: Seq<Seq<char>>) -> Result<Seq<CommandView>, Seq<char>>
    decreases ls.len(),
{
    if ls.len() == 0 {
        Ok(seq![])
    } else {
        match parse_all(ls.drop_last()) {
            Err(e) => Err(e),
            Ok(cs) => match parse_line(ls.last(), ls.len()) {
                Err(e) => Err(e),
                Ok(None) => Ok(cs),
                Ok(Some(c)) => Ok(cs.push(c)),
            },
        }
    }
}

/// What a script gives: the commands of its lines, or the error of its first bad line.
pub open spec fn parse_script(s: Seq<char>) -> Result<Seq<CommandView>, Seq<char>> {
    parse_all(script_lines(s))
}

/// The view of a parsed script, or of the error text.
pub open spec fn script_result_view(r: Result<Vec<MissionCommand>, String>) -> Result<
    Seq<CommandView>,
    Seq<char>,
> {
    match r {
        Ok(cmds) => Ok(commands_view(cmds@)),
        Err(e) => Err(e@),
    }
}

proof fn lemma_pieces_len(s: Seq<char>)
    ensures
        1 <= pieces(s).len() <= s.len() + 1,
    decreases s.len(),
{
    if s.len() > 0 {
        lemma_pieces_len(s.drop_last());
    }
}

proof fn lemma_pieces_step(s: Seq<char>, i: int)
    requires
        0 <= i < s.len(),
    ensures
        pieces(s.take(i + 1)) == (if s[i] == '\n' {
            pieces(s.take(i)).push(Seq::empty())
        } else {
            pieces(s.take(i)).update(
                pieces(s.take(i)).len() - 1,
                pieces(s.take(i)).last().push(s[i]),
            )
        }),
{
    let t = s.take(i + 1);
    assert(t.drop_last() =~= s.take(i));
    assert(t.last() == s[i]);
}

proof fn lemma_prefix_trans(x: Seq<Seq<char>>, y: Seq<Seq<char>>, z: Seq<Seq<char>>)
    requires
        x.is_prefix_of(y),
        y.is_prefix_of(z),
    ensures
        x.is_prefix_of(z),
{
    assert(x =~= z.subrange(0, x.len() as int)) by {
        assert forall|k: int| 0 <= k < x.len() implies x[k] == z[k] by {
            assert(x[k] == y.subrange(0, x.len() as int)[k]);
            assert(y[k] == z.subrange(0, y.len() as int)[k]);
        }
    }
}

proof fn lemma_pieces_prefix(s: Seq<char>, i: int, j: int)
    requires
        0 <= i <= j <= s.len(),
    ensures
        pieces(s.take(i)).drop_last().is_prefix_of(pieces(s.take(j)).drop_last()),
    decreases j - i,
{
    let x = pieces(s.take(i)).drop_last();
    if i == j {
        assert(x =~= x.subrange(0, x.len() as int));
    } else {
        lemma_pieces_prefix(s, i, j - 1);
        lemma_pieces_step(s, j - 1);
        lemma_pieces_len(s.take(j - 1));
        let p = pieces(s.take(j - 1));
        let q = pieces(s.take(j)).drop_last();
        if s[j - 1] == '\n' {
            assert(q =~= p);
            assert(p.drop_last() =~= p.subrange(0, p.len() - 1));
        } else {
            assert(q =~= p.drop_last());
            assert(q =~= q.subrange(0, q.len() as int));
        }
        lemma_prefix_trans(x, p.drop_last(), q);
    }
}

proof fn lemma_parse_all_err(ls: Seq<Seq<char>>, ms: Seq<Seq<char>>)
    requires
        ls.is_prefix_of(ms),
        parse_all(ls) is Err,
    ensures
        parse_all(ms) == parse_all(ls),
    decreases ms.len(),
{
    if ms.len() == ls.len() {
        assert(ms =~= ls);
    } else {
        assert(ls =~= ms.drop_last().subrange(0, ls.len() as int));
        lemma_parse_all_err(ls, ms.drop_last());
    }
}

/// The completed lines of `s` all lead the lines of the whole script.
proof fn lemma_done_lines_lead(s: Seq<char>, i: int)
    requires
        0 <= i <= s.len(),
    ensures
        pieces(s.take(i)).drop_last().is_prefix_of(script_lines(s)),
{
    lemma_pieces_prefix(s, i, s.len() as int);
    assert(s.take(s.len() as int) =~= s);
    let p = pieces(s);
    lemma_pieces_len(s);
    if s.len() > 0 && s.last() != '\n' {
        assert(p.drop_last() =~= p.subrange(0, p.len() - 1));
    } else {
        assert(p.drop_last() =~= p.drop_last().subrange(0, p.drop_last().len() as int));
    }
    lemma_prefix_trans(pieces(s.take(i)).drop_last(), p.drop_last(), script_lines(s));
}

/// Parses a line-by-line script into mission commands, or returns the error of its first
/// bad line.
pub fn parse_mission_script(script: &str) -> (r: Result<Vec<MissionCommand>, String>)
    ensures
        script_result_view(r) == parse_script(script@),
{
    let chars = chars_of(script);
    let n = chars.len();
    let mut cmds: Vec<MissionCommand> = Vec::new();
    let mut line_start: usize = 0;
    let mut lines_done: usize = 0;
    let mut i: usize = 0;
    proof {
        assert(chars@.take(0) =~= Seq::<char>::empty());
        assert(chars@.subrange(0, 0) =~= Seq::<char>::empty());
        assert(commands_view(cmds@) =~= Seq::<CommandView>::empty());
        assert(pieces(chars@.take(0)).drop_last() =~= Seq::<Seq<char>>::empty());
    }
    while i < n
        invariant
            chars@ == script@,
            n == chars.len(),
            lines_done <= line_start <= i <= n,
            pieces(chars@.take(i as int)).len() == lines_done + 1,
            pieces(chars@.take(i as int)).last() == chars@.subrange(line_start as int, i as int),
            parse_all(pieces(chars@.take(i as int)).drop_last()) == Ok::<
                Seq<CommandView>,
                Seq<char>,
            >(commands_view(cmds@)),
        decreases n - i,
    {
        proof {
            lemma_pieces_step(chars@, i as int);
        }
        if chars[i] == '\n' {
            let ghost done = pieces(chars@.take(i as int));
            let ghost old_cmds = cmds@;
            proof {
                assert(done.drop_last().push(done.last()) =~= done);
            }
            let r = parse_line_at(script, &chars, line_start, i, lines_done + 1);
            match r {
                Err(e) => {
                    proof {
                        assert(pieces(chars@.take(i + 1)).drop_last() =~= done);
                        lemma_done_lines_lead(chars@, i + 1);
                        lemma_parse_all_err(done, script_lines(chars@));
                    }
                    return Err(e);
                },
                Ok(Some(c)) => {
                    cmds.push(c);
                    proof {
                        assert(commands_view(cmds@) =~= commands_view(old_cmds).push(c@));
                    }
                },
                Ok(None) => {},
            }
            proof {
                assert(pieces(chars@.take(i + 1)).drop_last() =~= done);
                assert(chars@.subrange(i + 1, i + 1) =~= Seq::<char>::empty());
            }
            lines_done = lines_done + 1;
            line_start = i + 1;
        } else {
            proof {
                lemma_pieces_len(chars@.take(i as int));
                let p = pieces(chars@.take(i as int));
                assert(pieces(chars@.take(i + 1)).drop_last() =~= p.drop_last());
                assert(chars@.subrange(line_start as int, i + 1) =~= chars@.subrange(
                    line_start as int,
                    i as int,
                ).push(chars@[i as int]));
            }
        }
        i = i + 1;
    }
    proof {
        assert(chars@.take(n as int) =~= chars@);
    }
    let ghost all = pieces(chars@);
    if line_start < n {
        proof {
            lemma_pieces_step(chars@, n - 1);
            assert(chars@.take(n - 1 + 1) =~= chars@);
            assert(chars@.last() == chars@[n - 1]);
            assert(all.drop_last().push(all.last()) =~= all);
        }
        let old_cmds = Ghost(cmds@);
        let r = parse_line_at(script, &chars, line_start, n, lines_done + 1);
        match r {
            Err(e) => {
                return Err(e);
            },
            Ok(Some(c)) => {
                cmds.push(c);
                proof {
                    assert(commands_view(cmds@) =~= commands_view(old_cmds@).push(c@));
                }
            },
            Ok(None) => {},
        }
    } else {
        proof {
            if n > 0 {
                lemma_pieces_step(chars@, n - 1);
                assert(chars@.take(n - 1 + 1) =~= chars@);
                assert(chars@.last() == chars@[n - 1]);
            }
        }
    }
    Ok(cmds)
}

/// The log line written when a script is loaded.
pub open spec fn loaded_message(n: nat) -> Seq<char> {
    "Loaded script with "@ + decimal(n) + " commands"@
}

/// Execution runner that steps through mission commands sequentially. (The time left on
/// a `WAIT` is kept by whoever drives the runner.)
#[derive(Debug, Clone)]
pub struct CommandRunner {
    pub commands: Vec<MissionCommand>,
    pub current_step: usize,
    pub is_running: bool,
    pub execution_log: Vec<String>,
}

impl CommandRunner {
    /// An idle runner with no script.
    pub fn new() -> (r: Self)
        ensures
            r.commands@.len() == 0,
            r.current_step == 0,
            !r.is_running,
            r.execution_log@.len() == 0,
    {
        CommandRunner {
            commands: Vec::new(),
            current_step: 0,
            is_running: false,
            execution_log: Vec::new(),
        }
    }

    /// Loads a script: on success the runner holds its commands from the first step, runs
    /// when there is at least one, and its log holds the one line
    /// `Loaded script with <n> commands`; the count is returned. A script that does not
    /// parse leaves the runner as it was and returns the parse error.
    pub fn load_script(&mut self, script: &str) -> (r: Result<usize, String>)
        ensures
            match parse_script(script@) {
                Err(e) => r matches Err(x) && x@ == e && *final(self) == *old(self),
                Ok(cs) => {
                    &&& r == Ok::<usize, String>(cs.len() as usize)
                    &&& commands_view(final(self).commands@) == cs
                    &&& final(self).current_step == 0
                    &&& final(self).is_running == (cs.len() > 0)
                    &&& strings_view(final(self).execution_log@) == seq![loaded_message(cs.len())]
                },
            },
    {
        let cmds = match parse_mission_script(script) {
            Ok(c) => c,
            Err(e) => {
                return Err(e);
            },
        };
        let count = cmds.len();
        self.commands = cmds;
        self.current_step = 0;
        self.is_running = count > 0;
        self.execution_log = Vec::new();
        let mut line = "Loaded script with ".to_string();
        let d = decimal_string(count);
        line.append(d.as_str());
        line.append(" commands");
        self.execution_log.push(line);
        proof {
            assert(strings_view(self.execution_log@) =~= seq![loaded_message(count as nat)]);
        }
        Ok(count)
    }

    /// Stops running; the script and position stay.
    pub fn stop(&mut self)
        ensures
            *final(self) == (CommandRunner { is_running: false, ..*old(self) }),
    {
        self.is_running = false;
    }

    /// Forgets the script, the position and the log.
    pub fn reset(&mut self)
        ensures
            final(self).commands@.len() == 0,
            final(self).current_step == 0,
            !final(self).is_running,
            final(self).execution_log@.len() == 0,
    {
        self.commands = Vec::new();
        self.current_step = 0;
        self.is_running = false;
        self.execution_log = Vec::new();
    }
}

} // verus!
