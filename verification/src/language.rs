//! Language side: backend configuration, the mock backend, text-to-speech,
//! and the tool registry with its built-in tools.
use vstd::prelude::*;

use crate::text::{
    chars_of, concat_str, contains_seq, join_lines, push_str, split_by, split_on_whitespace,
    spec_lowercase, str_eq, string_from, to_lowercase, views, contains_str, is_ws,
};
use crate::types::BrainError;

verus! {

/// Configuration of the language model provider.
#[derive(Debug, Clone, PartialEq, Eq)]
pub enum LlmProviderConfig {
    Ollama { host: String, port: u16, model: String },
    Claude { api_key: String, model: String },
    Mock { response: String },
}

/// The default Ollama host.
pub fn default_ollama_host() -> (s: String)
    ensures
        s@ == "http://localhost"@,
{
    "http://localhost".to_owned()
}

/// The default Ollama port.
pub fn default_ollama_port() -> (p: u16)
    ensures
        p == 11434,
{
    11434
}

/// The default Ollama model.
pub fn default_ollama_model() -> (s: String)
    ensures
        s@ == "gemma3:latest"@,
{
    "gemma3:latest".to_owned()
}

/// The default response of the mock backend.
pub fn default_mock_response() -> (s: String)
    ensures
        s@ == "Mock response"@,
{
    "Mock response".to_owned()
}

impl Default for LlmProviderConfig {
    /// Ollama on the default host, port and model.
    fn default() -> (c: Self)
        ensures
            c matches LlmProviderConfig::Ollama { host, port, model } && host@ == "http://localhost"@
                && port == 11434 && model@ == "gemma3:latest"@,
    {
        LlmProviderConfig::Ollama {
            host: default_ollama_host(),
            port: default_ollama_port(),
            model: default_ollama_model(),
        }
    }
}

/// Mock backend that returns a canned response.
pub struct MockBackend {
    response: String,
}

impl MockBackend {
    /// The canned response.
    pub closed spec fn canned(&self) -> Seq<char> {
        self.response@
    }

    /// A mock backend that always answers `response`.
    pub fn new(response: String) -> (b: Self)
        ensures
            b.canned() == response@,
    {
        MockBackend { response }
    }

    /// The response to any prompt: the canned response.
    pub fn respond(&self) -> (s: String)
        ensures
            s@ == self.canned(),
    {
        self.response.clone()
    }
}

/// Text-to-speech through the system's `say` command.
pub struct SystemTts;

impl SystemTts {
    pub fn new() -> (t: Self) {
        SystemTts
    }

    /// The program run to speak.
    pub fn program(&self) -> (s: &'static str)
        ensures
            s@ == "say"@,
    {
        "say"
    }
}

impl Default for SystemTts {
    fn default() -> (t: Self) {
        Self::new()
    }
}

/// A tool as registered: its name, its description, and the tool itself.
pub struct RegisteredTool<T> {
    pub name: String,
    pub description: String,
    pub tool: T,
}

/// Registry of available tools. `T` is the tool type.
pub struct ToolRegistry<T> {
    tools: Vec<RegisteredTool<T>>,
}

/// The line describing a tool: `- name: description`.
pub open spec fn tool_line<T>(t: RegisteredTool<T>) -> Seq<char> {
    "- "@ + t.name@ + ": "@ + t.description@
}

/// The position of the first tool with the given name, if any.
pub open spec fn is_first_named<T>(tools: Seq<RegisteredTool<T>>, name: Seq<char>, i: int) -> bool {
    &&& 0 <= i < tools.len()
    &&& tools[i].name@ == name
    &&& forall|j: int| 0 <= j < i ==> (#[trigger] tools[j]).name@ != name
}

/// Whether no tool has the given name.
pub open spec fn none_named<T>(tools: Seq<RegisteredTool<T>>, name: Seq<char>) -> bool {
    forall|j: int| 0 <= j < tools.len() ==> (#[trigger] tools[j]).name@ != name
}

/// What registering a tool does to the listing and to every lookup, where
/// `after` holds the tools of `before` and then the new one (as `register`
/// leaves them): the listing gains the new tool's line, after a line break
/// unless the registry was empty; under the new tool's name, a tool already
/// found stays found and otherwise the new tool is found; under every other
/// name, what is found, and whether anything is, does not change.
pub proof fn lemma_register_then_list_and_find<T>(
    before: Seq<RegisteredTool<T>>,
    after: Seq<RegisteredTool<T>>,
)
    requires
        after.len() == before.len() + 1,
        after.drop_last() == before,
    ensures
        join_lines(after.map_values(|t: RegisteredTool<T>| tool_line(t))) == (if before.len() == 0 {
            tool_line(after.last())
        } else {
            join_lines(before.map_values(|t: RegisteredTool<T>| tool_line(t))) + "\n"@ + tool_line(
                after.last(),
            )
        }),
        none_named(before, after.last().name@) ==> is_first_named(
            after,
            after.last().name@,
            before.len() as int,
        ),
        forall|i: int|
            #[trigger] is_first_named(before, after.last().name@, i) ==> is_first_named(
                after,
                after.last().name@,
                i,
            ),
        forall|n: Seq<char>, i: int|
            n != after.last().name@ ==> (#[trigger] is_first_named(after, n, i) <==> is_first_named(
                before,
                n,
                i,
            )),
        forall|n: Seq<char>|
            n != after.last().name@ ==> (#[trigger] none_named(after, n) <==> none_named(before, n)),
{
    let x = after.last();
    assert forall|j: int| 0 <= j < before.len() implies #[trigger] after[j] == before[j] by {
        assert(after.drop_last()[j] == after[j]);
    }
    let lines = after.map_values(|t: RegisteredTool<T>| tool_line(t));
    assert(lines.drop_last() =~= before.map_values(|t: RegisteredTool<T>| tool_line(t)));
    assert(lines.last() == tool_line(x));
    if before.len() == 0 {
        assert(lines.len() == 1);
    }
    assert forall|i: int| #[trigger] is_first_named(before, x.name@, i) implies is_first_named(
        after,
        x.name@,
        i,
    ) by {
        assert forall|j: int| 0 <= j < i implies (#[trigger] after[j]).name@ != x.name@ by {
            assert(after[j] == before[j]);
        }
    }
    if none_named(before, x.name@) {
        assert forall|j: int| 0 <= j < before.len() implies (#[trigger] after[j]).name@
            != x.name@ by {
            assert(after[j] == before[j]);
        }
    }
    assert forall|n: Seq<char>, i: int| n != x.name@ implies (#[trigger] is_first_named(
        after,
        n,
        i,
    ) <==> is_first_named(before, n, i)) by {
        if is_first_named(after, n, i) {
            assert(i < before.len());
            assert forall|j: int| 0 <= j < i implies (#[trigger] before[j]).name@ != n by {
                assert(after[j] == before[j]);
            }
            assert(before[i] == after[i]);
        }
        if is_first_named(before, n, i) {
            assert forall|j: int| 0 <= j < i implies (#[trigger] after[j]).name@ != n by {
                assert(after[j] == before[j]);
            }
            assert(before[i] == after[i]);
        }
    }
    assert forall|n: Seq<char>| n != x.name@ implies (#[trigger] none_named(after, n)
        <==> none_named(before, n)) by {
        if none_named(after, n) {
            assert forall|j: int| 0 <= j < before.len() implies (#[trigger] before[j]).name@ != n by {
                assert(after[j] == before[j]);
            }
        }
        if none_named(before, n) {
            assert forall|j: int| 0 <= j < after.len() implies (#[trigger] after[j]).name@ != n by {
                if j < before.len() {
                    assert(after[j] == before[j]);
                } else {
                    assert(after[j] == x);
                }
            }
        }
    }
}

impl<T> ToolRegistry<T> {
    /// The registered tools, in registration order.
    pub closed spec fn entries(&self) -> Seq<RegisteredTool<T>> {
        self.tools@
    }

    /// An empty registry.
    pub fn new() -> (r: Self)
        ensures
            r.entries() == Seq::<RegisteredTool<T>>::empty(),
    {
        ToolRegistry { tools: Vec::new() }
    }

    /// Register a tool under its name and description.
    pub fn register(&mut self, name: &str, description: &str, tool: T)
        ensures
            final(self).entries().len() == old(self).entries().len() + 1,
            final(self).entries().drop_last() == old(self).entries(),
            final(self).entries().last().name@ == name@,
            final(self).entries().last().description@ == description@,
            final(self).entries().last().tool == tool,
    {
        let ghost before = self.tools@;
        self.tools.push(
            RegisteredTool { name: name.to_owned(), description: description.to_owned(), tool },
        );
        proof {
            assert(self.tools@.drop_last() =~= before);
        }
    }

    /// The number of registered tools.
    pub fn len(&self) -> (n: usize)
        ensures
            n == self.entries().len(),
    {
        self.tools.len()
    }

    /// Whether no tool is registered.
    pub fn is_empty(&self) -> (b: bool)
        ensures
            b == (self.entries().len() == 0),
    {
        self.tools.len() == 0
    }

    /// All tool descriptions as `- name: description` lines, joined by `\n`,
    /// for inclusion in a system prompt.
    pub fn list_descriptions(&self) -> (s: String)
        ensures
            s@ == join_lines(self.entries().map_values(|t: RegisteredTool<T>| tool_line(t))),
    {
        let ghost lines = self.tools@.map_values(|t: RegisteredTool<T>| tool_line(t));
        let mut out = String::new();
        let mut i: usize = 0;
        while i < self.tools.len()
            invariant
                i <= self.tools@.len(),
                lines == self.tools@.map_values(|t: RegisteredTool<T>| tool_line(t)),
                out@ == join_lines(lines.take(i as int)),
            decreases self.tools.len() - i,
        {
            let t = &self.tools[i];
            if i > 0 {
                push_str(&mut out, "\n");
            }
            push_str(&mut out, "- ");
            push_str(&mut out, t.name.as_str());
            push_str(&mut out, ": ");
            push_str(&mut out, t.description.as_str());
            proof {
                let pre = lines.take(i + 1);
                assert(pre.drop_last() =~= lines.take(i as int));
                assert(pre.last() == tool_line(self.tools@[i as int]));
                if i == 0 {
                    assert(pre =~= seq![pre.last()]);
                }
            }
            i = i + 1;
        }
        proof {
            assert(lines.take(self.tools@.len() as int) =~= lines);
        }
        out
    }

    /// Find a tool by name: the first registered under it.
    pub fn find(&self, name: &str) -> (r: Option<&T>)
        ensures
            match r {
                Some(t) => exists|i: int|
                    #[trigger] is_first_named(self.entries(), name@, i) && *t
                        == self.entries()[i].tool,
                None => none_named(self.entries(), name@),
            },
    {
        let mut i: usize = 0;
        while i < self.tools.len()
            invariant
                i <= self.tools@.len(),
                forall|j: int| 0 <= j < i ==> (#[trigger] self.tools@[j]).name@ != name@,
            decreases self.tools.len() - i,
        {
            if str_eq(self.tools[i].name.as_str(), name) {
                assert(is_first_named(self.entries(), name@, i as int));
                return Some(&self.tools[i].tool);
            }
            i = i + 1;
        }
        None
    }

    /// The tool to execute for a name, or the error that it is not found.
    pub fn lookup(&self, name: &str) -> (r: Result<&T, BrainError>)
        ensures
            match r {
                Ok(t) => exists|i: int|
                    #[trigger] is_first_named(self.entries(), name@, i) && *t
                        == self.entries()[i].tool,
                Err(e) => (e matches BrainError::Language(m) && m@ == "Tool not found: "@ + name@)
                    && none_named(self.entries(), name@),
            },
    {
        match self.find(name) {
            Some(t) => Ok(t),
            None => Err(BrainError::Language(concat_str("Tool not found: ", name))),
        }
    }
}

impl<T> Default for ToolRegistry<T> {
    fn default() -> (r: Self)
        ensures
            r.entries() == Seq::<RegisteredTool<T>>::empty(),
    {
        Self::new()
    }
}

/// Returns the current date and time.
pub struct CurrentTimeTool;

impl CurrentTimeTool {
    pub fn name(&self) -> (s: &'static str)
        ensures
            s@ == "current_time"@,
    {
        "current_time"
    }

    pub fn description(&self) -> (s: &'static str)
        ensures
            s@ == "Returns the current date and time"@,
    {
        "Returns the current date and time"
    }
}

/// Evaluates simple arithmetic expressions.
pub struct CalculatorTool;

impl CalculatorTool {
    pub fn name(&self) -> (s: &'static str)
        ensures
            s@ == "calculator"@,
    {
        "calculator"
    }

    pub fn description(&self) -> (s: &'static str)
        ensures
            s@ == "Evaluates simple arithmetic expressions (e.g. '2+2', '10*3-5')"@,
    {
        "Evaluates simple arithmetic expressions (e.g. '2+2', '10*3-5')"
    }
}

/// The built-in tools.
#[derive(Debug, Clone, Copy, PartialEq, Eq, Structural)]
pub enum BuiltinTool {
    CurrentTime,
    Calculator,
    Shell,
}

/// The registry of the built-in tools: current time, calculator and shell,
/// in that order, each under its own name and description.
pub fn default_tools() -> (r: ToolRegistry<BuiltinTool>)
    ensures
        r.entries().len() == 3,
        r.entries()[0].name@ == "current_time"@,
        r.entries()[0].description@ == "Returns the current date and time"@,
        r.entries()[0].tool == BuiltinTool::CurrentTime,
        r.entries()[1].name@ == "calculator"@,
        r.entries()[1].description@
            == "Evaluates simple arithmetic expressions (e.g. '2+2', '10*3-5')"@,
        r.entries()[1].tool == BuiltinTool::Calculator,
        r.entries()[2].name@ == "shell"@,
        r.entries()[2].description@
            == "Runs allowlisted shell commands: ls, pwd, date, uptime, whoami"@,
        r.entries()[2].tool == BuiltinTool::Shell,
{
    let mut registry: ToolRegistry<BuiltinTool> = ToolRegistry::new();
    registry.register(CurrentTimeTool.name(), CurrentTimeTool.description(), BuiltinTool::CurrentTime);
    let ghost e1 = registry.entries();
    registry.register(CalculatorTool.name(), CalculatorTool.description(), BuiltinTool::Calculator);
    let ghost e2 = registry.entries();
    registry.register(ShellCommandTool.name(), ShellCommandTool.description(), BuiltinTool::Shell);
    proof {
        assert(e2[0] == e2.drop_last()[0]);
        assert(registry.entries()[0] == registry.entries().drop_last()[0]);
        assert(registry.entries()[1] == registry.entries().drop_last()[1]);
    }
    registry
}

/// Runs allowlisted shell commands.
pub struct ShellCommandTool;

/// The commands the shell tool may run.
pub open spec fn allowed_commands() -> Seq<Seq<char>> {
    seq!["ls"@, "pwd"@, "date"@, "uptime"@, "whoami"@]
}

/// The words of a text (`str::split_whitespace`): the non-empty pieces
/// between white space characters.
pub open spec fn words(s: Seq<char>) -> Seq<Seq<char>> {
    split_by(s, |x: char| is_ws(x)).filter(|w: Seq<char>| w.len() > 0)
}

/// A shell command to run: the program and its arguments.
pub struct ShellCommand {
    pub program: String,
    pub args: Vec<String>,
}

/// The text of the refusal of a command.
pub open spec fn not_allowed_message(cmd: Seq<char>) -> Seq<char> {
    "Command '"@ + cmd + "' is not allowed. Allowed: ls, pwd, date, uptime, whoami"@
}

impl ShellCommandTool {
    pub fn name(&self) -> (s: &'static str)
        ensures
            s@ == "shell"@,
    {
        "shell"
    }

    pub fn description(&self) -> (s: &'static str)
        ensures
            s@ == "Runs allowlisted shell commands: ls, pwd, date, uptime, whoami"@,
    {
        "Runs allowlisted shell commands: ls, pwd, date, uptime, whoami"
    }

    /// The command an input asks to run: its first word is the program and
    /// the other words its arguments. An input without words is refused as
    /// an empty command, a program outside the allowlist as not allowed.
    pub fn command_for(&self, input: &str) -> (r: Result<ShellCommand, BrainError>)
        ensures
            ({
                let w = words(input@);
                match r {
                    Ok(c) => w.len() > 0 && allowed_commands().contains(w[0]) && c.program@
                        == w[0] && c.args@.len() + 1 == w.len() && forall|k: int|
                        0 <= k < c.args@.len() ==> (#[trigger] c.args@[k])@ == w[k + 1],
                    Err(e) => if w.len() == 0 {
                        e matches BrainError::Language(m) && m@ == "Empty command"@
                    } else {
                        !allowed_commands().contains(w[0]) && (e matches BrainError::Language(m)
                            && m@ == not_allowed_message(w[0]))
                    },
                }
            }),
    {
        let v = chars_of(input);
        let pieces = split_on_whitespace(&v);
        let ghost all = views(pieces@);
        let ghost keep = |w: Seq<char>| w.len() > 0;
        let mut ws: Vec<String> = Vec::new();
        let mut i: usize = 0;
        while i < pieces.len()
            invariant
                i <= pieces.len(),
                all == views(pieces@),
                keep == (|w: Seq<char>| w.len() > 0),
                ws@.map_values(|s: String| s@) == all.take(i as int).filter(keep),
            decreases pieces.len() - i,
        {
            let ghost before = ws@;
            if pieces[i].len() > 0 {
                ws.push(string_from(&pieces[i]));
            }
            proof {
                reveal(Seq::filter);
                let pre = all.take(i + 1);
                assert(pre.drop_last() =~= all.take(i as int));
                assert(pre.last() == pieces@[i as int]@);
                assert(ws@.map_values(|s: String| s@) =~= (if keep(pre.last()) {
                    before.map_values(|s: String| s@).push(pre.last())
                } else {
                    before.map_values(|s: String| s@)
                }));
            }
            i = i + 1;
        }
        proof {
            assert(all.take(pieces.len() as int) =~= all);
        }
        let ghost w = words(input@);
        assert(ws@.map_values(|s: String| s@) == w);
        if ws.len() == 0 {
            return Err(BrainError::Language("Empty command".to_owned()));
        }
        let allowed = is_allowed_command(ws[0].as_str());
        proof {
            assert(ws@[0]@ == w[0]);
        }
        if !allowed {
            let mut msg = concat_str("Command '", ws[0].as_str());
            push_str(&mut msg, "' is not allowed. Allowed: ls, pwd, date, uptime, whoami");
            return Err(BrainError::Language(msg));
        }
        let mut args: Vec<String> = Vec::new();
        let mut k: usize = 1;
        while k < ws.len()
            invariant
                1 <= k <= ws.len(),
                ws@.map_values(|s: String| s@) == w,
                args@.len() + 1 == k,
                forall|m: int| 0 <= m < args@.len() ==> (#[trigger] args@[m])@ == w[m + 1],
            decreases ws.len() - k,
        {
            args.push(ws[k].clone());
            k = k + 1;
        }
        let program = ws[0].clone();
        Ok(ShellCommand { program, args })
    }
}

/// Whether a program is on the shell tool's allowlist.
pub fn is_allowed_command(cmd: &str) -> (b: bool)
    ensures
        b == allowed_commands().contains(cmd@),
{
    let r = str_eq(cmd, "ls") || str_eq(cmd, "pwd") || str_eq(cmd, "date") || str_eq(cmd, "uptime")
        || str_eq(cmd, "whoami");
    proof {
        let a = allowed_commands();
        if r {
            if cmd@ == "ls"@ {
                assert(a[0] == cmd@);
            } else if cmd@ == "pwd"@ {
                assert(a[1] == cmd@);
            } else if cmd@ == "date"@ {
                assert(a[2] == cmd@);
            } else if cmd@ == "uptime"@ {
                assert(a[3] == cmd@);
            } else {
                assert(a[4] == cmd@);
            }
        }
    }
    r
}

/// The memories that match a search: those whose lowercase text contains
/// the lowercase query.
pub open spec fn memory_matches(memories: Seq<Seq<char>>, query: Seq<char>) -> Seq<Seq<char>> {
    memories.filter(|m: Seq<char>| contains_seq(spec_lowercase(m), spec_lowercase(query)))
}

/// The answer of a memory search: `- memory` lines joined by `\n`, or a
/// notice that nothing matched.
pub open spec fn search_answer(memories: Seq<Seq<char>>, query: Seq<char>) -> Seq<char> {
    let m = memory_matches(memories, query);
    if m.len() == 0 {
        "No matching memories found."@
    } else {
        join_lines(m.map_values(|x: Seq<char>| "- "@ + x))
    }
}

/// Search stored memories by keyword, ignoring case.
pub fn search_memories(memories: &Vec<String>, query: &str) -> (s: String)
    ensures
        s@ == search_answer(memories@.map_values(|m: String| m@), query@),
{
    let ghost mv = memories@.map_values(|m: String| m@);
    let ghost pred = |m: Seq<char>| contains_seq(spec_lowercase(m), spec_lowercase(query@));
    let q = to_lowercase(query);
    let mut found: Vec<&String> = Vec::new();
    let mut i: usize = 0;
    while i < memories.len()
        invariant
            i <= memories.len(),
            mv == memories@.map_values(|m: String| m@),
            pred == (|m: Seq<char>| contains_seq(spec_lowercase(m), spec_lowercase(query@))),
            q@ == spec_lowercase(query@),
            found@.map_values(|m: &String| m@) == mv.take(i as int).filter(pred),
        decreases memories.len() - i,
    {
        let ghost before = found@;
        let lower = to_lowercase(memories[i].as_str());
        let lv = chars_of(lower.as_str());
        let hit = contains_str(&lv, q.as_str());
        if hit {
            found.push(&memories[i]);
        }
        proof {
            reveal(Seq::filter);
            let pre = mv.take(i + 1);
            assert(pre.drop_last() =~= mv.take(i as int));
            assert(pre.last() == memories@[i as int]@);
            assert(found@.map_values(|m: &String| m@) =~= (if pred(pre.last()) {
                before.map_values(|m: &String| m@).push(pre.last())
            } else {
                before.map_values(|m: &String| m@)
            }));
        }
        i = i + 1;
    }
    proof {
        assert(mv.take(memories.len() as int) =~= mv);
    }
    let ghost fv = found@.map_values(|m: &String| m@);
    if found.len() == 0 {
        return "No matching memories found.".to_owned();
    }
    let ghost lines = fv.map_values(|x: Seq<char>| "- "@ + x);
    let mut out = String::new();
    let mut k: usize = 0;
    while k < found.len()
        invariant
            k <= found.len(),
            fv == found@.map_values(|m: &String| m@),
            lines == fv.map_values(|x: Seq<char>| "- "@ + x),
            out@ == join_lines(lines.take(k as int)),
        decreases found.len() - k,
    {
        if k > 0 {
            push_str(&mut out, "\n");
        }
        push_str(&mut out, "- ");
        push_str(&mut out, found[k].as_str());
        proof {
            let pre = lines.take(k + 1);
            assert(pre.drop_last() =~= lines.take(k as int));
            assert(pre.last() == "- "@ + found@[k as int]@);
            if k == 0 {
                assert(pre =~= seq![pre.last()]);
            }
        }
        k = k + 1;
    }
    proof {
        assert(lines.take(found.len() as int) =~= lines);
    }
    out
}

} // verus!
