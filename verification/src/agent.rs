//! What agents exchange with a language model: the plans and tool calls it fills in, the
//! requirements agents share, the messages it is told and the requests sent to it.
use vstd::prelude::*;

use crate::domain::{clone_opt_text, opt_text_view};
use crate::text::{join_lines, join_with, owned};

verus! {

/// The configuration of an agent: its system prompt and model.
#[derive(Debug, Default)]
pub struct AgentConfig {
    pub prompt: String,
    pub model: String,
}

/// Whether an agent stopped, and why.
#[derive(Debug, Default)]
pub struct AgentStatus {
    pub stop: bool,
    pub stop_reason: Option<String>,
}

/// What an agent has said and heard, and whether it stopped.
#[derive(Debug, Default)]
pub struct AgentContext {
    pub messages: Vec<ChatMessage>,
    pub status: AgentStatus,
}

pub struct RequirementView {
    pub key: Seq<char>,
    pub reason: Seq<char>,
    pub result: Option<Seq<char>>,
}

/// A piece of information an agent needs before it can act.
#[derive(Debug, Default)]
pub struct Requirement {
    pub key: String,
    pub reason: String,
    pub result: Option<String>,
}

impl View for Requirement {
    type V = RequirementView;

    open spec fn view(&self) -> RequirementView {
        RequirementView { key: self.key@, reason: self.reason@, result: opt_text_view(self.result) }
    }
}

impl Clone for Requirement {
    fn clone(&self) -> (r: Self)
        ensures
            r@ == self@,
    {
        Requirement {
            key: self.key.clone(),
            reason: self.reason.clone(),
            result: clone_opt_text(&self.result),
        }
    }
}

pub open spec fn requirements_view(rs: Seq<Requirement>) -> Seq<RequirementView> {
    rs.map_values(|r: Requirement| r@)
}

/// Copies of `rs`.
pub fn clone_requirements(rs: &Vec<Requirement>) -> (r: Vec<Requirement>)
    ensures
        requirements_view(r@) == requirements_view(rs@),
{
    let mut r: Vec<Requirement> = Vec::new();
    let mut i: usize = 0;
    while i < rs.len()
        invariant
            i <= rs@.len(),
            r@.len() == i,
            forall|k: int| 0 <= k < i ==> (#[trigger] r@[k])@ == rs@[k]@,
        decreases rs.len() - i,
    {
        r.push(rs[i].clone());
        i = i + 1;
    }
    assert(requirements_view(r@) =~= requirements_view(rs@));
    r
}

pub struct NodeInfoView {
    pub key: Seq<char>,
    pub goal: Seq<char>,
    pub result: Option<Seq<char>>,
    pub requirements: Seq<RequirementView>,
}

/// A node of a plan: the tool to run (its key), why, and what it needs.
#[derive(Debug, Default)]
pub struct NodeInfo {
    pub key: String,
    pub goal: String,
    pub result: Option<String>,
    pub requirements: Vec<Requirement>,
}

impl View for NodeInfo {
    type V = NodeInfoView;

    open spec fn view(&self) -> NodeInfoView {
        NodeInfoView {
            key: self.key@,
            goal: self.goal@,
            result: opt_text_view(self.result),
            requirements: requirements_view(self.requirements@),
        }
    }
}

impl Clone for NodeInfo {
    fn clone(&self) -> (r: Self)
        ensures
            r@ == self@,
    {
        NodeInfo {
            key: self.key.clone(),
            goal: self.goal.clone(),
            result: clone_opt_text(&self.result),
            requirements: clone_requirements(&self.requirements),
        }
    }
}

pub struct PlanInfoView {
    pub result: Option<Seq<char>>,
    pub finish: bool,
    pub nodes: Option<Seq<NodeInfoView>>,
}

/// A planner's reply: a result, whether planning is over, and the next layer of nodes.
#[derive(Debug, Default)]
pub struct PlanInfo {
    pub result: Option<String>,
    pub finish: bool,
    pub nodes: Option<Vec<NodeInfo>>,
}

pub open spec fn opt_nodes_view(n: Option<Vec<NodeInfo>>) -> Option<Seq<NodeInfoView>> {
    match n {
        Some(v) => Some(v@.map_values(|x: NodeInfo| x@)),
        None => None,
    }
}

impl View for PlanInfo {
    type V = PlanInfoView;

    open spec fn view(&self) -> PlanInfoView {
        PlanInfoView {
            result: opt_text_view(self.result),
            finish: self.finish,
            nodes: opt_nodes_view(self.nodes),
        }
    }
}

pub struct ToolCallInfoView {
    pub result: Option<Seq<char>>,
    pub params: Option<Seq<char>>,
    pub requirements: Seq<RequirementView>,
}

/// A tool caller's reply: a result, or the parameters of the call and what it needs.
#[derive(Debug, Default)]
pub struct ToolCallInfo {
    pub result: Option<String>,
    pub params: Option<String>,
    pub requirements: Vec<Requirement>,
}

impl View for ToolCallInfo {
    type V = ToolCallInfoView;

    open spec fn view(&self) -> ToolCallInfoView {
        ToolCallInfoView {
            result: opt_text_view(self.result),
            params: opt_text_view(self.params),
            requirements: requirements_view(self.requirements@),
        }
    }
}

/// Who speaks in a chat message.
#[derive(Debug, Clone, Copy, PartialEq, Eq, Structural)]
pub enum MessageRole {
    User,
    System,
    Assistant,
    Function,
    Tool,
}

pub struct ChatMessageView {
    pub role: MessageRole,
    pub content: Seq<char>,
    pub name: Option<Seq<char>>,
}

/// A text message of a chat with a language model.
#[derive(Debug)]
pub struct ChatMessage {
    pub role: MessageRole,
    pub content: String,
    pub name: Option<String>,
}

impl View for ChatMessage {
    type V = ChatMessageView;

    open spec fn view(&self) -> ChatMessageView {
        ChatMessageView { role: self.role, content: self.content@, name: opt_text_view(self.name) }
    }
}

pub open spec fn messages_view(ms: Seq<ChatMessage>) -> Seq<ChatMessageView> {
    ms.map_values(|m: ChatMessage| m@)
}

pub open spec fn message(role: MessageRole, content: Seq<char>) -> ChatMessageView {
    ChatMessageView { role, content, name: None }
}

/// The name under which tool descriptions are shown to the planner.
pub open spec fn tool_info_name() -> Seq<char> {
    "节点功能信息"@
}

/// The model every request asks for.
pub open spec fn chat_model() -> Seq<char> {
    "openai/gpt-5.2"@
}

/// The instructions of the planner, which splits an objective into layers of tool nodes.
pub const PLANNER_PROMPT: &'static str = "
你是一个多智能体系统中的 DAG 任务规划器（Planner）。

你的任务不是回答用户问题，而是把用户需求拆解成一个“层序遍历的dag，即每一层都是无依赖关系的，每次询问需要返回下一层任务一直到任务完成”。

---

## 🚨 重要规则

1. 你只能输出 JSON，禁止任何解释、Markdown、自然语言说明
2. 不得臆造缺失信息
3. 如果信息不足，必须写入 requirements
4. 每个节点必须有明确 goal（任务目标）
5. 没有依赖的任务可以并行执行
6. 不要过度拆解任务，只输出最小可执行 DAG（MVP DAG）

---

## 🧠 节点类型（type）
- tool：所有的skill、mcp、function都会在content中给到，以assistant的用户形式提供

---

## 📦 输出格式（必须严格遵守）

{
  \"result\": \"本轮调度结果，基于上下文直接给出结论，不再需要任务调度数据\",
  \"finish\": false, // 本轮调度后无下一轮调度任务了，表示计划全部完成
  \"nodes\": [
    {
      \"key\": \"节点的key，即传入的tools的nama数据\",
      \"goal\": \"节点执行目的，即说明为什么要执行\",
      \"requirements\": [
        {
          \"key\": \"依赖的参数key，全局唯一\",
          \"reason\": \"依赖的参数信息，即为什么需要这个参数\",
        }
      ]
    }
  ]
}

---

## ❗ 缺失信息规则

如果执行任务必须依赖的信息缺失：

- 不允许编造
- 必须写入 requirements

---

请根据用户输入生成 DAG 任务结构。
";

/// The instructions of the tool caller, which fills in the parameters of one tool call.
pub const TOOL_PROMPT: &'static str = "
你是一个多智能体系统中的工具执行器（ToolCalling）。

你的任务不是回答用户问题，而是把输入当作ToolCalling的参数”。

---

## 🚨 重要规则

1. 你只能输出ToolCalling的入参JSON，禁止任何解释、Markdown、自然语言说明
2. 不得臆造缺失信息
3. 如果信息不足，必须写入 requirements）
8. 如果信息不足，只能输出“部分计划（partial）”

---

## 📦 输出格式（必须严格遵守）
{
  \"result\": \"本轮调度结果，基于上下文直接给出结论，不再需要任务调度数据\",
  \"params\": \"基于tool的scheme的请求入参数，json格式\",
  \"requirements\": [
    {
      \"key\": \"依赖的参数key，全局唯一\",
      \"reason\": \"依赖的参数信息，即为什么需要这个参数\",
      \"result\": null
    }
  ]

---

请根据用户输入生成 ToolCalling 任务结构。
";

/// The hexadecimal digit of `d` (0 to 15), in small letters.
pub open spec fn hex_digit(d: int) -> char {
    if d < 10 {
        (('0' as int) + d) as char
    } else {
        (('a' as int) + d - 10) as char
    }
}

/// How a character stands inside a JSON string: a quote, a backslash, and backspace,
/// tab, line feed, form feed and carriage return take a backslash and a letter; other
/// characters below U+0020 become `\u00` and two hexadecimal digits; all else stands
/// as it is.
pub open spec fn json_escape(c: char) -> Seq<char> {
    if c == '"' {
        seq!['\\', '"']
    } else if c == '\\' {
        seq!['\\', '\\']
    } else if c == '\u{8}' {
        seq!['\\', 'b']
    } else if c == '\t' {
        seq!['\\', 't']
    } else if c == '\n' {
        seq!['\\', 'n']
    } else if c == '\u{c}' {
        seq!['\\', 'f']
    } else if c == '\r' {
        seq!['\\', 'r']
    } else if (c as int) < 0x20 {
        seq!['\\', 'u', '0', '0', hex_digit((c as int) / 16), hex_digit((c as int) % 16)]
    } else {
        seq![c]
    }
}

/// The characters of `s`, each as it stands inside a JSON string.
pub open spec fn json_escaped(s: Seq<char>) -> Seq<char>
    decreases s.len(),
{
    if s.len() == 0 {
        Seq::empty()
    } else {
        json_escaped(s.drop_last()) + json_escape(s.last())
    }
}

/// The JSON text of the string `s`: in double quotes, with its characters escaped.
pub open spec fn json_string_text(s: Seq<char>) -> Seq<char> {
    seq!['"'] + json_escaped(s) + seq!['"']
}

/// Serialises the string `s` with `serde_json::to_string`, which writes a JSON string,
/// escaped as stated above; it cannot fail on a string.
#[verifier::external_body]
fn json_string(s: &str) -> (r: String)
    ensures
        r@ == json_string_text(s@),
{
    serde_json::to_string(s).unwrap_or_default()
}

pub open spec fn pairs_view(ps: Seq<(String, String)>) -> Seq<(Seq<char>, Seq<char>)> {
    ps.map_values(|p: (String, String)| (p.0@, p.1@))
}

/// The member `"key":"value"` of a JSON object.
pub open spec fn json_member(p: (Seq<char>, Seq<char>)) -> Seq<char> {
    json_string_text(p.0) + ":"@ + json_string_text(p.1)
}

/// The compact JSON text of the object whose members are `pairs`, in their order.
pub open spec fn json_object_text(pairs: Seq<(Seq<char>, Seq<char>)>) -> Seq<char> {
    "{"@ + join_with(pairs.map_values(|p: (Seq<char>, Seq<char>)| json_member(p)), ","@) + "}"@
}

/// The compact JSON text of the string map whose entries are `pairs`, in their order.
fn json_object(pairs: &Vec<(String, String)>) -> (r: String)
    ensures
        r@ == json_object_text(pairs_view(pairs@)),
{
    let ghost pv = pairs_view(pairs@);
    let ghost members = pv.map_values(|p: (Seq<char>, Seq<char>)| json_member(p));
    let mut parts: Vec<String> = Vec::new();
    let mut i: usize = 0;
    while i < pairs.len()
        invariant
            i <= pairs@.len(),
            pv == pairs_view(pairs@),
            members == pv.map_values(|p: (Seq<char>, Seq<char>)| json_member(p)),
            parts@.len() == i,
            forall|k: int| 0 <= k < i ==> (#[trigger] parts@[k])@ == members[k],
        decreases pairs.len() - i,
    {
        let mut member = json_string(pairs[i].0.as_str());
        member.append(":");
        let value = json_string(pairs[i].1.as_str());
        member.append(value.as_str());
        parts.push(member);
        i = i + 1;
    }
    assert(parts@.map_values(|l: String| l@) =~= members);
    let mut r = owned("{");
    let joined = join_lines(&parts, ",");
    r.append(joined.as_str());
    r.append("}");
    r
}

fn chat_message(role: MessageRole, content: String) -> (r: ChatMessage)
    ensures
        r@ == message(role, content@),
{
    ChatMessage { role, content, name: None }
}

/// What the planner is told in a round: its instructions, the goal, each tool, each
/// result so far, and the known requirement values when there are any.
pub open spec fn planner_messages_spec(
    goal: Seq<char>,
    tools: Seq<Seq<char>>,
    results: Seq<Seq<char>>,
    known: Seq<(Seq<char>, Seq<char>)>,
) -> Seq<ChatMessageView> {
    seq![message(MessageRole::System, PLANNER_PROMPT@), message(MessageRole::Assistant, goal)]
        + tools.map_values(
        |t: Seq<char>|
            ChatMessageView { role: MessageRole::Assistant, content: t, name: Some(tool_info_name()) },
    ) + results.map_values(|r: Seq<char>| message(MessageRole::Tool, r)) + if known.len() > 0 {
        seq![message(MessageRole::Assistant, json_object_text(known))]
    } else {
        Seq::empty()
    }
}

/// What the tool caller is told: its instructions, the goal, and the known requirement
/// values when there are any.
pub open spec fn tool_messages_spec(goal: Seq<char>, known: Seq<(Seq<char>, Seq<char>)>) -> Seq<
    ChatMessageView,
> {
    seq![message(MessageRole::System, TOOL_PROMPT@), message(MessageRole::Assistant, goal)]
        + if known.len() > 0 {
        seq![message(MessageRole::Assistant, json_object_text(known))]
    } else {
        Seq::empty()
    }
}

/// The messages of a planner round; `tools` are the JSON texts of the tools on offer.
pub fn planner_messages(
    goal: &str,
    tools: &Vec<String>,
    results: &Vec<String>,
    known: &Vec<(String, String)>,
) -> (r: Vec<ChatMessage>)
    ensures
        messages_view(r@) == planner_messages_spec(
            goal@,
            tools@.map_values(|t: String| t@),
            results@.map_values(|t: String| t@),
            pairs_view(known@),
        ),
{
    let mut r: Vec<ChatMessage> = Vec::new();
    r.push(chat_message(MessageRole::System, owned(PLANNER_PROMPT)));
    r.push(chat_message(MessageRole::Assistant, owned(goal)));
    let ghost head = messages_view(r@);
    let ghost tv = tools@.map_values(|t: String| t@);
    let ghost tool_msgs = tv.map_values(
        |t: Seq<char>|
            ChatMessageView { role: MessageRole::Assistant, content: t, name: Some(tool_info_name()) },
    );
    let mut i: usize = 0;
    while i < tools.len()
        invariant
            i <= tools@.len(),
            tv == tools@.map_values(|t: String| t@),
            tool_msgs == tv.map_values(
                |t: Seq<char>|
                    ChatMessageView {
                        role: MessageRole::Assistant,
                        content: t,
                        name: Some(tool_info_name()),
                    },
            ),
            messages_view(r@) =~= head + tool_msgs.take(i as int),
        decreases tools.len() - i,
    {
        let ghost before = messages_view(r@);
        r.push(
            ChatMessage {
                role: MessageRole::Assistant,
                content: tools[i].clone(),
                name: Some(owned("节点功能信息")),
            },
        );
        assert(messages_view(r@) =~= before.push(tool_msgs[i as int]));
        assert(tool_msgs.take(i + 1) =~= tool_msgs.take(i as int).push(tool_msgs[i as int]));
        i = i + 1;
    }
    assert(tool_msgs.take(tools@.len() as int) =~= tool_msgs);
    let ghost mid = messages_view(r@);
    let ghost rv = results@.map_values(|t: String| t@);
    let ghost result_msgs = rv.map_values(|x: Seq<char>| message(MessageRole::Tool, x));
    let mut j: usize = 0;
    while j < results.len()
        invariant
            j <= results@.len(),
            rv == results@.map_values(|t: String| t@),
            result_msgs == rv.map_values(|x: Seq<char>| message(MessageRole::Tool, x)),
            messages_view(r@) =~= mid + result_msgs.take(j as int),
        decreases results.len() - j,
    {
        let ghost before = messages_view(r@);
        r.push(chat_message(MessageRole::Tool, results[j].clone()));
        assert(messages_view(r@) =~= before.push(result_msgs[j as int]));
        assert(result_msgs.take(j + 1) =~= result_msgs.take(j as int).push(result_msgs[j as int]));
        j = j + 1;
    }
    assert(result_msgs.take(results@.len() as int) =~= result_msgs);
    if known.len() > 0 {
        let ghost before = messages_view(r@);
        r.push(chat_message(MessageRole::Assistant, json_object(known)));
        assert(messages_view(r@) =~= before.push(
            message(MessageRole::Assistant, json_object_text(pairs_view(known@))),
        ));
    }
    r
}

/// The messages of a tool call.
pub fn tool_messages(goal: &str, known: &Vec<(String, String)>) -> (r: Vec<ChatMessage>)
    ensures
        messages_view(r@) == tool_messages_spec(goal@, pairs_view(known@)),
{
    let mut r: Vec<ChatMessage> = Vec::new();
    r.push(chat_message(MessageRole::System, owned(TOOL_PROMPT)));
    r.push(chat_message(MessageRole::Assistant, owned(goal)));
    if known.len() > 0 {
        r.push(chat_message(MessageRole::Assistant, json_object(known)));
    }
    assert(messages_view(r@) =~= tool_messages_spec(goal@, pairs_view(known@)));
    r
}

pub struct ChatRequestView {
    pub model: Seq<char>,
    pub messages: Seq<ChatMessageView>,
    pub tools: Seq<Seq<char>>,
}

/// A chat completion request: the model, the messages, and the names of the tools on
/// offer (none for the planner).
#[derive(Debug)]
pub struct ChatRequest {
    pub model: String,
    pub messages: Vec<ChatMessage>,
    pub tools: Vec<String>,
}

impl View for ChatRequest {
    type V = ChatRequestView;

    open spec fn view(&self) -> ChatRequestView {
        ChatRequestView {
            model: self.model@,
            messages: messages_view(self.messages@),
            tools: self.tools@.map_values(|t: String| t@),
        }
    }
}

/// The request for the next layer of a plan.
pub fn plan_request(messages: Vec<ChatMessage>) -> (r: ChatRequest)
    ensures
        r@ == (ChatRequestView {
            model: chat_model(),
            messages: messages_view(messages@),
            tools: Seq::empty(),
        }),
{
    let r = ChatRequest { model: owned("openai/gpt-5.2"), messages, tools: Vec::new() };
    assert(r@.tools =~= Seq::<Seq<char>>::empty());
    r
}

/// The request for the parameters of a call of tool `tool`.
pub fn tool_call_request(messages: Vec<ChatMessage>, tool: &str) -> (r: ChatRequest)
    ensures
        r@ == (ChatRequestView {
            model: chat_model(),
            messages: messages_view(messages@),
            tools: seq![tool@],
        }),
{
    let mut tools = Vec::new();
    tools.push(owned(tool));
    let r = ChatRequest { model: owned("openai/gpt-5.2"), messages, tools };
    assert(r@.tools =~= seq![tool@]);
    r
}

/// What a reply says: the content of its first choice, if it has one.
pub fn reply_content(choices: Vec<Option<String>>) -> (r: Option<String>)
    ensures
        choices@.len() == 0 ==> r is None,
        choices@.len() > 0 ==> opt_text_view(r) == opt_text_view(choices@[0]),
{
    let mut choices = choices;
    if choices.len() == 0 {
        None
    } else {
        choices.swap_remove(0)
    }
}

} // verus!
