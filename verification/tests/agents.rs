use crabot::agent::{
    plan_request, planner_messages, reply_content, tool_call_request, tool_messages, MessageRole,
    NodeInfo, PlanInfo, Requirement, ToolCallInfo, PLANNER_PROMPT, TOOL_PROMPT,
};
use crabot::beans::{create, factory, BeanError};
use crabot::carbot::{
    print_hello_world, tool_call_params, AgentError, Factory, HelloWorldReq, Planner,
    RequirementStore, RunGate, ToolCallStep, ToolCaller, PLAN_ROUNDS,
};
use crabot::tooling::{CapabilityMetadata, Constructor, Schema, ToolSchema, TypedBeanFactory};

fn requirement(key: &str) -> Requirement {
    Requirement { key: key.to_string(), reason: "needed".to_string(), result: None }
}

fn node(key: &str, goal: &str) -> NodeInfo {
    NodeInfo { key: key.to_string(), goal: goal.to_string(), result: None, requirements: vec![] }
}

#[test]
fn test_schema() {
    let plan = PlanInfo {
        result: Some("本轮调度结果，基于上下文直接给出结论，不再需要任务调度数据".to_string()),
        finish: false,
        nodes: Some(vec![NodeInfo {
            key: "节点的key，即传入的tools的nama数据".to_string(),
            goal: "节点执行目的，即说明为什么要执行".to_string(),
            result: Some("节点执行结果，基于上下文直接给出结论，不再需要任务调度数据".to_string()),
            requirements: vec![Requirement {
                key: "依赖的参数key，全局唯一".to_string(),
                reason: "依赖的参数信息，即为什么需要这个参数".to_string(),
                result: None,
            }],
        }]),
    };

    println!("{:?}", plan);

    let info = ToolCallInfo {
        result: Some("本轮调度结果，基于上下文直接给出结论，不再需要任务调度数据".to_string()),
        params: Some("基于tool的scheme的请求入参数，json格式".to_string()),
        requirements: vec![Requirement {
            key: "依赖的参数key，全局唯一".to_string(),
            reason: "依赖的参数信息，即为什么需要这个参数".to_string(),
            result: None,
        }],
    };

    println!("{:?}", info);
}

#[test]
fn requirement_store_reads_what_was_set() {
    let mut store = RequirementStore::new();
    assert!(store.is_empty());
    assert_eq!(store.load_requirement_value("city"), None);
    store.set_requirement_value("city", "Paris".to_string());
    store.set_requirement_value("date", "today".to_string());
    store.set_requirement_value("city", "Rome".to_string());
    assert_eq!(store.load_requirement_value("city"), Some("Rome".to_string()));
    assert_eq!(store.load_requirement_value("date"), Some("today".to_string()));
    assert_eq!(store.entries().len(), 2);
    assert!(!store.is_empty());
}

#[test]
fn find_requirements_keeps_only_known_asked_keys() {
    let mut store = RequirementStore::new();
    store.set_requirement_value("a", "1".to_string());
    store.set_requirement_value("b", "2".to_string());
    let found = store.find_requirements(&vec![requirement("b"), requirement("c"), requirement("b")]);
    assert_eq!(found.entries(), &vec![("b".to_string(), "2".to_string())]);
    let none = store.find_requirements(&vec![requirement("z")]);
    assert!(none.is_empty());
}

#[test]
fn merge_prefers_the_other_store() {
    let mut known = RequirementStore::new();
    known.set_requirement_value("a", "old".to_string());
    let mut other = RequirementStore::new();
    other.set_requirement_value("a", "new".to_string());
    other.set_requirement_value("b", "x".to_string());
    known.merge(&other);
    assert_eq!(known.load_requirement_value("a"), Some("new".to_string()));
    assert_eq!(known.load_requirement_value("b"), Some("x".to_string()));
}

#[test]
fn carbot_starts_once() {
    let mut gate = RunGate::new();
    assert_eq!(gate.start(), Ok(()));
    assert_eq!(gate.start(), Err(AgentError::AlreadyRunning));
    assert!(!gate.check_can_run());
    assert_eq!(AgentError::AlreadyRunning.message(), "carbot already running");
}

#[test]
fn planner_spawns_nodes_then_finishes_with_result() {
    let mut planner = Planner::new(node("root_node", "say hello"));
    assert!(planner.wants_plan());
    let spawn = planner.on_plan(Some(PlanInfo {
        result: None,
        finish: false,
        nodes: Some(vec![node("print_hello_world", "print it")]),
    }));
    assert_eq!(spawn.len(), 1);
    assert_eq!(spawn[0].key, "print_hello_world");
    assert!(planner.wants_plan());
    let spawn = planner.on_plan(Some(PlanInfo { result: Some("done".to_string()), finish: true, nodes: None }));
    assert!(spawn.is_empty());
    assert!(!planner.wants_plan());
    assert_eq!(planner.output(), "done\n");
}

#[test]
fn planner_stops_without_plan_and_after_rounds() {
    let mut planner = Planner::new(node("root_node", "g"));
    planner.on_plan(None);
    assert!(!planner.wants_plan());
    assert_eq!(planner.output(), "");

    let mut busy = Planner::new(node("root_node", "g"));
    let mut rounds = 0;
    while busy.wants_plan() {
        busy.on_plan(Some(PlanInfo { result: None, finish: false, nodes: None }));
        rounds += 1;
    }
    assert_eq!(rounds, PLAN_ROUNDS);
}

#[test]
fn planner_messages_list_prompt_goal_tools_results_and_known_values() {
    let planner = Planner::new(node("root_node", "the goal"));
    let mut known = RequirementStore::new();
    known.set_requirement_value("k", "v".to_string());
    let msgs = planner.messages(&vec!["{\"name\":\"t\"}".to_string()], &known);
    assert_eq!(msgs.len(), 4);
    assert_eq!(msgs[0].role, MessageRole::System);
    assert_eq!(msgs[0].content, PLANNER_PROMPT);
    assert_eq!(msgs[1].content, "the goal");
    assert_eq!(msgs[2].name.as_deref(), Some("节点功能信息"));
    assert_eq!(msgs[3].content, "{\"k\":\"v\"}");
    let plain = planner_messages("g", &vec![], &vec!["r1".to_string()], &vec![]);
    assert_eq!(plain.len(), 3);
    assert_eq!(plain[2].role, MessageRole::Tool);
}

#[test]
fn tool_caller_steps() {
    let caller = ToolCaller::new(node("print_hello_world", "greet"));
    let msgs = caller.messages(&RequirementStore::new());
    assert_eq!(msgs.len(), 2);
    assert_eq!(msgs[0].content, TOOL_PROMPT);
    let mut store = RequirementStore::new();
    store.set_requirement_value("name", "Ann".to_string());
    let mut known = RequirementStore::new();

    assert!(matches!(caller.on_first_reply(None, &store, &mut known), ToolCallStep::Finish(s) if s.is_empty()));
    let with_result = ToolCallInfo { result: Some("r".to_string()), params: None, requirements: vec![] };
    assert!(matches!(caller.on_first_reply(Some(with_result), &store, &mut known), ToolCallStep::Finish(s) if s == "r"));
    let no_params = ToolCallInfo { result: None, params: None, requirements: vec![requirement("other")] };
    assert!(matches!(caller.on_first_reply(Some(no_params), &store, &mut known), ToolCallStep::Call(p) if p == "{}"));
    assert!(known.is_empty());
    let needs = ToolCallInfo {
        result: None,
        params: Some("{\"x\":1}".to_string()),
        requirements: vec![requirement("name")],
    };
    assert!(matches!(caller.on_first_reply(Some(needs), &store, &mut known), ToolCallStep::AskAgain(p) if p == "{\"x\":1}"));
    assert_eq!(known.load_requirement_value("name"), Some("Ann".to_string()));

    assert!(matches!(caller.on_second_reply(None, "{}".to_string()), ToolCallStep::Finish(s) if s.is_empty()));
    let second = ToolCallInfo { result: None, params: Some("{\"name\":\"Ann\"}".to_string()), requirements: vec![] };
    assert!(matches!(caller.on_second_reply(Some(second), "{}".to_string()), ToolCallStep::Call(p) if p == "{\"name\":\"Ann\"}"));
    let empty = ToolCallInfo { result: None, params: None, requirements: vec![] };
    assert!(matches!(caller.on_second_reply(Some(empty), "{\"x\":1}".to_string()), ToolCallStep::Call(p) if p == "{\"x\":1}"));
}

#[test]
fn tool_params_default_to_empty_object() {
    assert_eq!(tool_call_params(""), "{}");
    assert_eq!(tool_call_params("{\"a\":1}"), "{\"a\":1}");
}

#[test]
fn requests_name_model_and_tools() {
    let req = plan_request(tool_messages("g", &vec![]));
    assert_eq!(req.model, "openai/gpt-5.2");
    assert!(req.tools.is_empty());
    let req = tool_call_request(vec![], "print_hello_world");
    assert_eq!(req.tools, vec!["print_hello_world".to_string()]);
    assert_eq!(reply_content(vec![Some("a".to_string()), None]), Some("a".to_string()));
    assert_eq!(reply_content(vec![]), None);
}

#[test]
fn hello_world_answers() {
    let resp = print_hello_world(HelloWorldReq { name: "Ann".to_string() });
    assert_eq!(resp.msg, "how are u");
}

fn schema(name: &str) -> ToolSchema {
    ToolSchema {
        name: name.to_string(),
        desc: "d".to_string(),
        input: Schema::new("{}".to_string()),
        output: Schema::new("{}".to_string()),
        metadata: CapabilityMetadata::default(),
    }
}

#[test]
fn ability_factory_registers_and_finds_tools() {
    let mut tools = Factory::new();
    tools.register(schema("b"));
    tools.register(schema("a"));
    tools.register(schema("b"));
    let all = tools.tools();
    assert_eq!(all.len(), 2);
    assert_eq!(all[0].name, "a");
    assert_eq!(tools.tool("b").unwrap().name, "b");
    assert_eq!(tools.tool("c").unwrap_err(), AgentError::ToolNotFound);
    assert_eq!(AgentError::ToolNotFound.message(), "tool not found");
}

struct Doubler;

impl Constructor<u32, u32> for Doubler {
    fn builds(&self, input: u32, output: u32) -> bool {
        output == input * 2
    }

    fn create(&self, input: u32) -> u32 {
        input * 2
    }
}

#[test]
fn beans_are_built_by_name() {
    let mut f: TypedBeanFactory<u32, u32> = TypedBeanFactory::new();
    let double: std::sync::Arc<dyn Constructor<u32, u32>> = std::sync::Arc::new(Doubler);
    f.register("double", double.clone());
    let copy = f.constructors();
    assert_eq!(copy.len(), 1);
    assert_eq!(copy[0].0, "double");
    assert!(std::sync::Arc::ptr_eq(&copy[0].1, &double));
    assert_eq!(copy[0].1.create(4), 8);
    f.register("double2", std::sync::Arc::new(Doubler));
    assert_eq!(copy.len(), 1);
    assert_eq!(f.constructors().len(), 2);
    assert_eq!(create(Some(&f), "double", 21), Ok(42));
    assert_eq!(create(Some(&f), "triple", 1), Err(BeanError::BeanNotFound));
    assert_eq!(create::<u32, u32>(None, "double", 1), Err(BeanError::FactoryNotFound));
    assert_eq!(factory::<u32>(None), Err(BeanError::FactoryNotFound));
    assert_eq!(factory(Some(7u32)), Ok(7));
}

#[test]
fn known_values_are_escaped_as_json() {
    let planner = Planner::new(node("root_node", "g"));
    let mut known = RequirementStore::new();
    known.set_requirement_value("q\"k", "a\\b\nc\u{1}".to_string());
    let msgs = planner.messages(&vec![], &known);
    assert_eq!(msgs[2].content, "{\"q\\\"k\":\"a\\\\b\\nc\\u0001\"}");
}

#[test]
fn tools_registered_one_per_name_last_wins() {
    let mut tools = Factory::new();
    let mut first = schema("x");
    first.desc = "first".to_string();
    let mut last = schema("x");
    last.desc = "last".to_string();
    tools.register(first);
    tools.register(schema("w"));
    tools.register(last);
    let all = tools.tools();
    assert_eq!(all.iter().map(|t| t.name.clone()).collect::<Vec<_>>(), vec!["w".to_string(), "x".to_string()]);
    assert_eq!(tools.tool("x").unwrap().desc, "last");
}
