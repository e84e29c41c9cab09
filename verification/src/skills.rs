//! Skills, slash commands and the catalog that parses `/command args` input.
use vstd::prelude::*;

use crate::domain::{CapabilityRef, CapabilityRefView};
use crate::index::{
    ascend_by, inserted_by, lemma_inserted_map, lemma_lookup_inserted, lookup_by, name_key, NameIndex,
    Named,
};
use crate::text::{
    char_is_whitespace, first_ws, is_white_space, owned, text_lt, trim, trim_slashes, trim_ws,
};

verus! {

#[derive(Debug, Clone, Copy, PartialEq, Eq, Structural)]
pub enum PlannerHint {
    ManualOnly,
    AutoCallable,
    PlannerEntrypoint,
}

#[derive(Debug, Clone, Copy, PartialEq, Eq, Structural)]
pub enum SkillApprovalPolicy {
    Never,
    OnSideEffect,
    Always,
}

#[derive(Debug, Clone, Copy, PartialEq, Eq, Structural)]
pub enum SlashCommandKind {
    Plan,
    Run,
    Tools,
    Skills,
    Status,
    Approve,
    Reject,
    Replay,
    Skill,
}

pub struct SkillManifestView {
    pub name: Seq<char>,
    pub description: Seq<char>,
    pub aliases: Seq<Seq<char>>,
    pub required_capabilities: Seq<CapabilityRefView>,
    pub planner_hint: PlannerHint,
    pub approval: SkillApprovalPolicy,
    pub input_schema: Seq<char>,
    pub output_contract: Seq<char>,
}

/// A skill; its input schema is a JSON document, held as its text.
#[derive(Debug, PartialEq, Eq)]
pub struct SkillManifest {
    pub name: String,
    pub description: String,
    pub aliases: Vec<String>,
    pub required_capabilities: Vec<CapabilityRef>,
    pub planner_hint: PlannerHint,
    pub approval: SkillApprovalPolicy,
    pub input_schema: String,
    pub output_contract: String,
}

impl View for SkillManifest {
    type V = SkillManifestView;

    open spec fn view(&self) -> SkillManifestView {
        SkillManifestView {
            name: self.name@,
            description: self.description@,
            aliases: self.aliases@.map_values(|a: String| a@),
            required_capabilities: self.required_capabilities@.map_values(|c: CapabilityRef| c@),
            planner_hint: self.planner_hint,
            approval: self.approval,
            input_schema: self.input_schema@,
            output_contract: self.output_contract@,
        }
    }
}

/// The names a skill answers to: its own name, then its aliases.
pub open spec fn command_names_of(skill: SkillManifestView) -> Seq<Seq<char>> {
    seq![skill.name] + skill.aliases
}

impl SkillManifest {
    /// Its own name, then its aliases.
    pub fn command_names(&self) -> (r: Vec<String>)
        ensures
            r@.map_values(|n: String| n@) == command_names_of(self@),
    {
        let mut r: Vec<String> = Vec::new();
        r.push(self.name.clone());
        let mut i: usize = 0;
        while i < self.aliases.len()
            invariant
                i <= self.aliases@.len(),
                r@.len() == i + 1,
                r@[0]@ == self.name@,
                forall|k: int| 0 <= k < i ==> (#[trigger] r@[k + 1])@ == self.aliases@[k]@,
            decreases self.aliases.len() - i,
        {
            r.push(self.aliases[i].clone());
            i = i + 1;
        }
        let ghost rv = r@.map_values(|n: String| n@);
        assert forall|k: int| 0 <= k < r@.len() implies (#[trigger] rv[k])
            == command_names_of(self@)[k] by {
            if k > 0 {
                assert(r@[(k - 1) + 1]@ == self.aliases@[k - 1]@);
            }
        }
        assert(rv =~= command_names_of(self@));
        r
    }
}

impl Named for SkillManifest {
    open spec fn name_view(&self) -> Seq<char> {
        self.name@
    }

    fn name_str(&self) -> (r: &str) {
        self.name.as_str()
    }
}

pub struct SlashCommandView {
    pub name: Seq<char>,
    pub description: Seq<char>,
    pub kind: SlashCommandKind,
}

#[derive(Debug, PartialEq, Eq)]
pub struct SlashCommand {
    pub name: String,
    pub description: String,
    pub kind: SlashCommandKind,
}

impl View for SlashCommand {
    type V = SlashCommandView;

    open spec fn view(&self) -> SlashCommandView {
        SlashCommandView { name: self.name@, description: self.description@, kind: self.kind }
    }
}

impl Named for SlashCommand {
    open spec fn name_view(&self) -> Seq<char> {
        self.name@
    }

    fn name_str(&self) -> (r: &str) {
        self.name.as_str()
    }
}

impl Clone for SlashCommand {
    fn clone(&self) -> (r: Self)
        ensures
            r@ == self@,
    {
        SlashCommand { name: self.name.clone(), description: self.description.clone(), kind: self.kind }
    }
}

pub struct CommandInvocationView {
    pub command: Seq<char>,
    pub args: Seq<char>,
    pub kind: SlashCommandKind,
}

#[derive(Debug, PartialEq, Eq)]
pub struct CommandInvocation {
    pub command: String,
    pub args: String,
    pub kind: SlashCommandKind,
}

impl View for CommandInvocation {
    type V = CommandInvocationView;

    open spec fn view(&self) -> CommandInvocationView {
        CommandInvocationView { command: self.command@, args: self.args@, kind: self.kind }
    }
}

/// Why a line is not a command of the catalog.
#[derive(Debug, PartialEq, Eq)]
pub enum CommandError {
    /// The line does not start with `/`.
    MissingSlash,
    /// No command of this name is registered.
    Unknown { command: String },
}

pub open spec fn command_error_message(e: CommandError) -> Seq<char> {
    match e {
        CommandError::MissingSlash => "slash command must start with '/'"@,
        CommandError::Unknown { command } => "unknown slash command: /"@ + command@,
    }
}

impl CommandError {
    /// The message the error reads as.
    pub fn message(&self) -> (r: String)
        ensures
            r@ == command_error_message(*self),
    {
        match self {
            CommandError::MissingSlash => owned("slash command must start with '/'"),
            CommandError::Unknown { command } => {
                let mut m = owned("unknown slash command: /");
                m.append(command.as_str());
                m
            },
        }
    }
}

pub open spec fn command_key() -> spec_fn(SlashCommandView) -> Seq<char> {
    |c: SlashCommandView| c.name
}

pub open spec fn skill_key() -> spec_fn(SkillManifestView) -> Seq<char> {
    |s: SkillManifestView| s.name
}

/// `items` with each of `vs` put in its place, in order.
pub open spec fn inserted_all<T>(items: Seq<T>, vs: Seq<T>, key: spec_fn(T) -> Seq<char>) -> Seq<T>
    decreases vs.len(),
{
    if vs.len() == 0 {
        items
    } else {
        inserted_by(inserted_all(items, vs.drop_last(), key), vs.last(), key)
    }
}

/// The last of `vs` named `name`, if one is.
pub open spec fn last_named<T>(vs: Seq<T>, name: Seq<char>, key: spec_fn(T) -> Seq<char>) -> Option<T>
    decreases vs.len(),
{
    if vs.len() == 0 {
        None
    } else if key(vs.last()) == name {
        Some(vs.last())
    } else {
        last_named(vs.drop_last(), name, key)
    }
}

/// The last of `vs` with the name of `vs[i]` is `vs[i]` when no later value has that name.
pub proof fn lemma_last_named_at<T>(vs: Seq<T>, key: spec_fn(T) -> Seq<char>, i: int)
    requires
        0 <= i < vs.len(),
        forall|j: int| i < j < vs.len() ==> key(#[trigger] vs[j]) != key(vs[i]),
    ensures
        last_named(vs, key(vs[i]), key) == Some(vs[i]),
    decreases vs.len(),
{
    if i < vs.len() - 1 {
        let init = vs.drop_last();
        assert(key(vs[vs.len() - 1]) != key(vs[i]));
        assert forall|j: int| i < j < init.len() implies key(#[trigger] init[j]) != key(init[i]) by {
            assert(init[j] == vs[j]);
        }
        lemma_last_named_at(init, key, i);
    }
}

/// Putting several values in their places, one after another, keeps the names ascending,
/// and a name then looks up the last value put under it, or what it looked up before
/// when none was.
pub proof fn lemma_lookup_inserted_all<T>(
    items: Seq<T>,
    vs: Seq<T>,
    key: spec_fn(T) -> Seq<char>,
    name: Seq<char>,
)
    requires
        ascend_by(items, key),
    ensures
        ascend_by(inserted_all(items, vs, key), key),
        lookup_by(inserted_all(items, vs, key), name, key) == match last_named(vs, name, key) {
            Some(v) => Some(v),
            None => lookup_by(items, name, key),
        },
    decreases vs.len(),
{
    if vs.len() > 0 {
        lemma_lookup_inserted_all(items, vs.drop_last(), key, name);
        lemma_lookup_inserted(inserted_all(items, vs.drop_last(), key), vs.last(), key, name);
    }
}

/// The command each of `names` becomes when a skill described by `description` registers.
pub open spec fn skill_commands(names: Seq<Seq<char>>, description: Seq<char>) -> Seq<SlashCommandView> {
    names.map_values(
        |n: Seq<char>| SlashCommandView { name: n, description, kind: SlashCommandKind::Skill },
    )
}

/// The command part of a line: what follows the leading slashes up to the first white space.
pub open spec fn command_part(body: Seq<char>) -> Seq<char> {
    body.subrange(0, first_ws(body) as int)
}

/// The argument part of a line: what follows the first white space after the command, trimmed.
pub open spec fn args_part(body: Seq<char>) -> Seq<char> {
    if first_ws(body) < body.len() {
        trim_ws(body.subrange(first_ws(body) as int + 1, body.len() as int))
    } else {
        Seq::empty()
    }
}

/// What the catalog with commands `commands` makes of the line `input`.
pub open spec fn parse_spec(commands: Seq<SlashCommandView>, input: Seq<char>) -> Result<
    CommandInvocationView,
    Option<Seq<char>>,
> {
    let t = trim_ws(input);
    if t.len() == 0 || t[0] != '/' {
        Err(None)
    } else {
        let body = trim_slashes(t);
        let command = command_part(body);
        match lookup_by(commands, command, command_key()) {
            Some(c) => Ok(
                CommandInvocationView { command, args: args_part(body), kind: c.kind },
            ),
            None => Err(Some(command)),
        }
    }
}

/// Putting the commands of a skill among ascending commands keeps them ascending, and
/// each of the skill's names then looks up its skill command.
pub proof fn lemma_skill_commands_inserted(
    commands: Seq<SlashCommandView>,
    names: Seq<Seq<char>>,
    description: Seq<char>,
    n: Seq<char>,
)
    requires
        ascend_by(commands, command_key()),
    ensures
        ascend_by(inserted_all(commands, skill_commands(names, description), command_key()), command_key()),
        names.contains(n) ==> lookup_by(
            inserted_all(commands, skill_commands(names, description), command_key()),
            n,
            command_key(),
        ) == Some(SlashCommandView { name: n, description, kind: SlashCommandKind::Skill }),
    decreases names.len(),
{
    let vs = skill_commands(names, description);
    let key = command_key();
    if names.len() > 0 {
        let init = names.drop_last();
        assert(vs.drop_last() =~= skill_commands(init, description));
        lemma_skill_commands_inserted(commands, init, description, n);
        let inner = inserted_all(commands, vs.drop_last(), key);
        lemma_lookup_inserted(inner, vs.last(), key, n);
        if names.contains(n) && n != names.last() {
            let k = choose|k: int| 0 <= k < names.len() && names[k] == n;
            assert(init[k] == n);
        }
    }
}

/// Skills and slash commands, each kept in ascending order of name.
pub struct SkillCatalog {
    skills: NameIndex<SkillManifest>,
    commands: NameIndex<SlashCommand>,
}

pub proof fn lemma_first_ws_bound(s: Seq<char>)
    ensures
        first_ws(s) <= s.len(),
    decreases s.len(),
{
    if s.len() > 0 && !is_white_space(s[0]) {
        lemma_first_ws_bound(s.drop_first());
    }
}

impl SkillCatalog {
    /// Skills and commands each ascend strictly by name.
    pub closed spec fn wf(&self) -> bool {
        self.skills.wf() && self.commands.wf()
    }

    /// The skills, in ascending order of name.
    pub closed spec fn skills_view(&self) -> Seq<SkillManifestView> {
        self.skills@.map_values(|s: SkillManifest| s@)
    }

    /// The slash commands, in ascending order of name.
    pub closed spec fn commands_view(&self) -> Seq<SlashCommandView> {
        self.commands@.map_values(|c: SlashCommand| c@)
    }

    /// No skill and no command.
    pub fn new() -> (r: Self)
        ensures
            r.wf(),
            r.skills_view() == Seq::<SkillManifestView>::empty(),
            r.commands_view() == Seq::<SlashCommandView>::empty(),
    {
        let r = SkillCatalog { skills: NameIndex::new(), commands: NameIndex::new() };
        assert(r.skills_view() =~= Seq::<SkillManifestView>::empty());
        assert(r.commands_view() =~= Seq::<SlashCommandView>::empty());
        r
    }

    /// The built-in commands, and no skill.
    pub fn with_builtin_commands() -> (r: Self)
        ensures
            r.wf(),
            r.skills_view() == Seq::<SkillManifestView>::empty(),
            r.commands_view() == inserted_all(
                Seq::<SlashCommandView>::empty(),
                builtin_command_views(),
                command_key(),
            ),
    {
        let mut catalog = SkillCatalog::new();
        let commands = builtin_commands();
        let ghost views = commands@.map_values(|c: SlashCommand| c@);
        let mut i: usize = 0;
        while i < commands.len()
            invariant
                catalog.wf(),
                i <= commands@.len(),
                views == commands@.map_values(|c: SlashCommand| c@),
                views == builtin_command_views(),
                catalog.skills_view() == Seq::<SkillManifestView>::empty(),
                catalog.commands_view() == inserted_all(
                    Seq::<SlashCommandView>::empty(),
                    views.take(i as int),
                    command_key(),
                ),
            decreases commands.len() - i,
        {
            catalog.register_command(commands[i].clone());
            assert(views.take(i + 1).drop_last() =~= views.take(i as int));
            i = i + 1;
        }
        assert(views.take(commands@.len() as int) =~= views);
        catalog
    }

    /// Registers a command under its name, replacing a command of the same name.
    pub fn register_command(&mut self, command: SlashCommand)
        requires
            old(self).wf(),
        ensures
            final(self).wf(),
            final(self).skills_view() == old(self).skills_view(),
            final(self).commands_view() == inserted_by(
                old(self).commands_view(),
                command@,
                command_key(),
            ),
    {
        let ghost old_items = self.commands@;
        let ghost c = command;
        self.commands.insert(command);
        proof {
            lemma_inserted_map(
                old_items,
                c,
                name_key::<SlashCommand>(),
                |x: SlashCommand| x@,
                command_key(),
            );
        }
    }

    /// A registered command is known: once `command` is put among the commands, a line
    /// whose command part is its name parses to it, with its kind and the rest of the line
    /// as arguments, and a line naming another command parses as it did before.
    pub proof fn lemma_registered_command_parses(&self, command: SlashCommandView, input: Seq<char>)
        requires
            self.wf(),
        ensures
            ({
                let t = trim_ws(input);
                let body = trim_slashes(t);
                t.len() > 0 && t[0] == '/' && command_part(body) == command.name ==> parse_spec(
                    inserted_by(self.commands_view(), command, command_key()),
                    input,
                ) == Ok::<CommandInvocationView, Option<Seq<char>>>(
                    CommandInvocationView {
                        command: command.name,
                        args: args_part(body),
                        kind: command.kind,
                    },
                )
            }),
            command_part(trim_slashes(trim_ws(input))) != command.name ==> parse_spec(
                inserted_by(self.commands_view(), command, command_key()),
                input,
            ) == parse_spec(self.commands_view(), input),
    {
        let views = self.commands_view();
        let key = command_key();
        assert forall|a: int, b: int| 0 <= a < b < views.len() implies text_lt(
            #[trigger] key(views[a]),
            #[trigger] key(views[b]),
        ) by {
            let nk = name_key::<SlashCommand>();
            assert(text_lt(nk(self.commands@[a]), nk(self.commands@[b])));
        }
        lemma_lookup_inserted(
            views,
            command,
            key,
            command_part(trim_slashes(trim_ws(input))),
        );
    }

    /// A registered skill answers to its names: once its commands are put among the
    /// commands, a line whose command part is its name or one of its aliases parses to a
    /// skill command, with the rest of the line as arguments.
    pub proof fn lemma_registered_skill_parses(&self, skill: SkillManifestView, input: Seq<char>)
        requires
            self.wf(),
        ensures
            ({
                let t = trim_ws(input);
                let body = trim_slashes(t);
                t.len() > 0 && t[0] == '/' && command_names_of(skill).contains(command_part(body))
                    ==> parse_spec(
                    inserted_all(
                        self.commands_view(),
                        skill_commands(command_names_of(skill), skill.description),
                        command_key(),
                    ),
                    input,
                ) == Ok::<CommandInvocationView, Option<Seq<char>>>(
                    CommandInvocationView {
                        command: command_part(body),
                        args: args_part(body),
                        kind: SlashCommandKind::Skill,
                    },
                )
            }),
    {
        let views = self.commands_view();
        let key = command_key();
        assert forall|a: int, b: int| 0 <= a < b < views.len() implies text_lt(
            #[trigger] key(views[a]),
            #[trigger] key(views[b]),
        ) by {
            let nk = name_key::<SlashCommand>();
            assert(text_lt(nk(self.commands@[a]), nk(self.commands@[b])));
        }
        lemma_skill_commands_inserted(
            views,
            command_names_of(skill),
            skill.description,
            command_part(trim_slashes(trim_ws(input))),
        );
    }

    /// Registers a skill under its name, and a skill command for its name and each alias.
    pub fn register_skill(&mut self, skill: SkillManifest)
        requires
            old(self).wf(),
        ensures
            final(self).wf(),
            final(self).commands_view() == inserted_all(
                old(self).commands_view(),
                skill_commands(command_names_of(skill@), skill@.description),
                command_key(),
            ),
            final(self).skills_view() == inserted_by(old(self).skills_view(), skill@, skill_key()),
    {
        let names = skill.command_names();
        let ghost name_views = names@.map_values(|n: String| n@);
        let ghost cmds = skill_commands(name_views, skill@.description);
        let ghost start = self.commands_view();
        let mut i: usize = 0;
        while i < names.len()
            invariant
                self.wf(),
                i <= names@.len(),
                name_views == names@.map_values(|n: String| n@),
                name_views == command_names_of(skill@),
                cmds == skill_commands(name_views, skill@.description),
                self.skills_view() == old(self).skills_view(),
                self.commands_view() == inserted_all(start, cmds.take(i as int), command_key()),
            decreases names.len() - i,
        {
            let command = SlashCommand {
                name: names[i].clone(),
                description: skill.description.clone(),
                kind: SlashCommandKind::Skill,
            };
            assert(command@ == cmds[i as int]);
            self.register_command(command);
            assert(cmds.take(i + 1).drop_last() =~= cmds.take(i as int));
            i = i + 1;
        }
        assert(cmds.take(names@.len() as int) =~= cmds);
        let ghost old_items = self.skills@;
        let ghost s = skill;
        self.skills.insert(skill);
        proof {
            lemma_inserted_map(
                old_items,
                s,
                name_key::<SkillManifest>(),
                |x: SkillManifest| x@,
                skill_key(),
            );
        }
    }

    /// The skills, in ascending order of name.
    pub fn skills(&self) -> (r: &Vec<SkillManifest>)
        ensures
            r@.map_values(|s: SkillManifest| s@) == self.skills_view(),
    {
        self.skills.values()
    }

    /// The slash commands, in ascending order of name.
    pub fn commands(&self) -> (r: &Vec<SlashCommand>)
        ensures
            r@.map_values(|c: SlashCommand| c@) == self.commands_view(),
    {
        self.commands.values()
    }

    /// Reads a line such as `/plan build a tool`: the command is what follows the leading
    /// slashes up to the first white space, the arguments the trimmed rest.
    pub fn parse(&self, input: &str) -> (r: Result<CommandInvocation, CommandError>)
        requires
            self.wf(),
        ensures
            match r {
                Ok(inv) => parse_spec(self.commands_view(), input@) == Ok::<
                    CommandInvocationView,
                    Option<Seq<char>>,
                >(inv@),
                Err(CommandError::MissingSlash) => parse_spec(self.commands_view(), input@) == Err::<
                    CommandInvocationView,
                    Option<Seq<char>>,
                >(None),
                Err(CommandError::Unknown { command }) => parse_spec(
                    self.commands_view(),
                    input@,
                ) == Err::<CommandInvocationView, Option<Seq<char>>>(Some(command@)),
            },
    {
        let t = trim(input);
        let n = t.unicode_len();
        if n == 0 || t.get_char(0) != '/' {
            return Err(CommandError::MissingSlash);
        }
        // Skip the leading slashes.
        let mut j: usize = 0;
        proof {
            assert(t@.subrange(0, n as int) =~= t@);
        }
        while j < n
            invariant
                n == t@.len(),
                j <= n,
                trim_slashes(t@.subrange(j as int, n as int)) == trim_slashes(t@),
            ensures
                j <= n,
                trim_slashes(t@.subrange(j as int, n as int)) == trim_slashes(t@),
                j == n || t@[j as int] != '/',
            decreases n - j,
        {
            if t.get_char(j) != '/' {
                break;
            }
            assert(t@.subrange(j as int, n as int).drop_first() =~= t@.subrange(j + 1, n as int));
            j = j + 1;
        }
        proof {
            if j < n {
                assert(t@.subrange(j as int, n as int)[0] == t@[j as int]);
            }
        }
        let body = t.substring_char(j, n);
        assert(body@ == trim_slashes(t@));
        // Find the first white space of the body.
        let m = body.unicode_len();
        let mut k: usize = 0;
        proof {
            assert(body@.subrange(0, m as int) =~= body@);
            lemma_first_ws_bound(body@);
        }
        while k < m
            invariant
                m == body@.len(),
                k <= m,
                first_ws(body@) == k + first_ws(body@.subrange(k as int, m as int)),
            ensures
                k <= m,
                first_ws(body@) == k + first_ws(body@.subrange(k as int, m as int)),
                k == m || is_white_space(body@[k as int]),
            decreases m - k,
        {
            if char_is_whitespace(body.get_char(k)) {
                break;
            }
            assert(body@.subrange(k as int, m as int).drop_first() =~= body@.subrange(
                k + 1,
                m as int,
            ));
            k = k + 1;
        }
        proof {
            if k < m {
                assert(body@.subrange(k as int, m as int)[0] == body@[k as int]);
            }
        }
        assert(first_ws(body@) == k);
        let command = body.substring_char(0, k);
        let args = if k < m {
            owned(trim(body.substring_char(k + 1, m)))
        } else {
            String::new()
        };
        match self.commands.get(command) {
            Some(registered) => {
                proof {
                    let key = name_key::<SlashCommand>();
                    let f = |x: SlashCommand| x@;
                    crate::index::lemma_lookup_map(
                        self.commands@,
                        command@,
                        key,
                        f,
                        command_key(),
                    );
                }
                Ok(CommandInvocation { command: owned(command), args, kind: registered.kind })
            },
            None => {
                proof {
                    let key = name_key::<SlashCommand>();
                    let f = |x: SlashCommand| x@;
                    crate::index::lemma_lookup_map(
                        self.commands@,
                        command@,
                        key,
                        f,
                        command_key(),
                    );
                }
                Err(CommandError::Unknown { command: owned(command) })
            },
        }
    }
}

/// The commands every catalog starts with.
pub open spec fn builtin_command_views() -> Seq<SlashCommandView> {
    seq![
        SlashCommandView {
            name: "plan"@,
            description: "生成或刷新 Task DAG，但不执行"@,
            kind: SlashCommandKind::Plan,
        },
        SlashCommandView {
            name: "run"@,
            description: "执行当前 plan 或一次性任务"@,
            kind: SlashCommandKind::Run,
        },
        SlashCommandView {
            name: "tools"@,
            description: "列出当前 session 可用工具、MCP 与插件能力"@,
            kind: SlashCommandKind::Tools,
        },
        SlashCommandView {
            name: "skills"@,
            description: "列出 skill catalog"@,
            kind: SlashCommandKind::Skills,
        },
        SlashCommandView {
            name: "status"@,
            description: "查看 session、department、agent、task 状态"@,
            kind: SlashCommandKind::Status,
        },
        SlashCommandView {
            name: "approve"@,
            description: "批准等待中的高风险任务或工具调用"@,
            kind: SlashCommandKind::Approve,
        },
        SlashCommandView {
            name: "reject"@,
            description: "拒绝等待中的高风险任务或工具调用"@,
            kind: SlashCommandKind::Reject,
        },
        SlashCommandView {
            name: "replay"@,
            description: "回放一次 session 事件流"@,
            kind: SlashCommandKind::Replay,
        },
    ]
}

fn command(name: &str, description: &str, kind: SlashCommandKind) -> (r: SlashCommand)
    ensures
        r@ == (SlashCommandView { name: name@, description: description@, kind }),
{
    SlashCommand { name: owned(name), description: owned(description), kind }
}

/// The commands every catalog starts with: plan, run, tools, skills, status, approve, reject
/// and replay.
pub fn builtin_commands() -> (r: Vec<SlashCommand>)
    ensures
        r@.map_values(|c: SlashCommand| c@) == builtin_command_views(),
{
    let mut r = Vec::new();
    r.push(command("plan", "生成或刷新 Task DAG，但不执行", SlashCommandKind::Plan));
    r.push(command("run", "执行当前 plan 或一次性任务", SlashCommandKind::Run));
    r.push(command("tools", "列出当前 session 可用工具、MCP 与插件能力", SlashCommandKind::Tools));
    r.push(command("skills", "列出 skill catalog", SlashCommandKind::Skills));
    r.push(command("status", "查看 session、department、agent、task 状态", SlashCommandKind::Status));
    r.push(command("approve", "批准等待中的高风险任务或工具调用", SlashCommandKind::Approve));
    r.push(command("reject", "拒绝等待中的高风险任务或工具调用", SlashCommandKind::Reject));
    r.push(command("replay", "回放一次 session 事件流", SlashCommandKind::Replay));
    assert(r@.map_values(|c: SlashCommand| c@) =~= builtin_command_views());
    r
}

/// The planning skill of the default catalog.
pub open spec fn architect_view() -> SkillManifestView {
    SkillManifestView {
        name: "architect"@,
        description: "将目标拆成可执行计划、风险点和验收标准"@,
        aliases: seq!["design"@],
        required_capabilities: Seq::empty(),
        planner_hint: PlannerHint::PlannerEntrypoint,
        approval: SkillApprovalPolicy::Never,
        input_schema: ARCHITECT_INPUT_SCHEMA@,
        output_contract: "Task DAG + acceptance criteria"@,
    }
}

/// The tool-finding skill of the default catalog.
pub open spec fn toolsmith_view() -> SkillManifestView {
    SkillManifestView {
        name: "toolsmith"@,
        description: "发现、解释和组合可用工具/MCP/插件能力"@,
        aliases: seq!["capabilities"@],
        required_capabilities: Seq::empty(),
        planner_hint: PlannerHint::AutoCallable,
        approval: SkillApprovalPolicy::OnSideEffect,
        input_schema: TOOLSMITH_INPUT_SCHEMA@,
        output_contract: "Selected capabilities with approval requirements"@,
    }
}

/// The input schema of the planning skill, as JSON text.
pub const ARCHITECT_INPUT_SCHEMA: &'static str = "{\"properties\":{\"objective\":{\"type\":\"string\"}},\"required\":[\"objective\"],\"type\":\"object\"}";

/// The input schema of the tool-finding skill, as JSON text.
pub const TOOLSMITH_INPUT_SCHEMA: &'static str = "{\"properties\":{\"goal\":{\"type\":\"string\"}},\"required\":[\"goal\"],\"type\":\"object\"}";

fn skill(
    name: &str,
    description: &str,
    alias: &str,
    planner_hint: PlannerHint,
    approval: SkillApprovalPolicy,
    input_schema: &str,
    output_contract: &str,
) -> (r: SkillManifest)
    ensures
        r@ == (SkillManifestView {
            name: name@,
            description: description@,
            aliases: seq![alias@],
            required_capabilities: Seq::empty(),
            planner_hint,
            approval,
            input_schema: input_schema@,
            output_contract: output_contract@,
        }),
{
    let mut aliases = Vec::new();
    aliases.push(owned(alias));
    let r = SkillManifest {
        name: owned(name),
        description: owned(description),
        aliases,
        required_capabilities: Vec::new(),
        planner_hint,
        approval,
        input_schema: owned(input_schema),
        output_contract: owned(output_contract),
    };
    assert(r@.aliases =~= seq![alias@]);
    assert(r@.required_capabilities =~= Seq::<CapabilityRefView>::empty());
    r
}

/// The skills after the default catalog's two registrations.
pub open spec fn default_skill_views() -> Seq<SkillManifestView> {
    inserted_by(
        inserted_by(Seq::empty(), architect_view(), skill_key()),
        toolsmith_view(),
        skill_key(),
    )
}

/// The commands after the default catalog's two registrations.
pub open spec fn default_command_views() -> Seq<SlashCommandView> {
    inserted_all(
        inserted_all(
            inserted_all(Seq::empty(), builtin_command_views(), command_key()),
            skill_commands(command_names_of(architect_view()), architect_view().description),
            command_key(),
        ),
        skill_commands(command_names_of(toolsmith_view()), toolsmith_view().description),
        command_key(),
    )
}

/// The built-in commands, with the `architect` (alias `design`) and `toolsmith`
/// (alias `capabilities`) skills registered.
pub fn default_skill_catalog() -> (r: SkillCatalog)
    ensures
        r.wf(),
        r.skills_view() == default_skill_views(),
        r.commands_view() == default_command_views(),
{
    let mut catalog = SkillCatalog::with_builtin_commands();
    catalog.register_skill(
        skill(
            "architect",
            "将目标拆成可执行计划、风险点和验收标准",
            "design",
            PlannerHint::PlannerEntrypoint,
            SkillApprovalPolicy::Never,
            ARCHITECT_INPUT_SCHEMA,
            "Task DAG + acceptance criteria",
        ),
    );
    catalog.register_skill(
        skill(
            "toolsmith",
            "发现、解释和组合可用工具/MCP/插件能力",
            "capabilities",
            PlannerHint::AutoCallable,
            SkillApprovalPolicy::OnSideEffect,
            TOOLSMITH_INPUT_SCHEMA,
            "Selected capabilities with approval requirements",
        ),
    );
    catalog
}

} // verus!
