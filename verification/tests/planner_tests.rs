use openzax::plan_order::order_steps;
use openzax::planner::PlanNode;
use openzax::planner::estimate_node_score;
use openzax::planner::join_strs;
use openzax::planner::Action;
use openzax::planner::PlanApprovalPolicy;
use openzax::planner::PlanNodeStatus;
use openzax::planner::PlanRun;
use openzax::planner::PlannerError;
use openzax::planner::PlanningEngine;
use openzax::planner::RunStep;

fn engine() -> PlanningEngine {
    PlanningEngine::new(PlanApprovalPolicy::default())
}

#[test]
fn plan_has_root_and_first_steps() {
    let e = engine();
    let dag = e.create_plan_with_ids("ship", "repo", &["fast", "safe"], 3, 2, 100, &[101, 102]);
    assert_eq!(dag.node_count(), 3);
    assert_eq!(dag.root_id(), 100);
    let root = dag.node(100).unwrap();
    assert_eq!(root.thought, "Achieve: ship | Context: repo | Constraints: fast, safe");
    assert_eq!(root.expected_outcome, "ship");
    assert_eq!(root.score, 800);
    assert_eq!(root.children, vec![101, 102]);
    let s1 = dag.node(101).unwrap();
    assert_eq!(s1.thought, "Step 1: approach 1 for 'ship'");
    assert_eq!(s1.expected_outcome, "Partial completion of 'ship'");
    assert_eq!(s1.estimated_cost, 100);
    assert_eq!(s1.score, 780);
    let s2 = dag.node(102).unwrap();
    assert_eq!(s2.thought, "Step 2: approach 2 for 'ship'");
    assert_eq!(s2.score, 740);
    assert_eq!(s2.parent_id, Some(100));
}

#[test]
fn random_plans_have_fresh_ids() {
    let e = engine();
    let dag = e.create_plan("goal", "", &[], 2, 3).unwrap();
    assert_eq!(dag.node_count(), 4);
    assert_eq!(dag.goal(), "goal");
    assert_eq!(dag.max_depth(), 2);
    assert_eq!(dag.branching_factor(), 3);
}

#[test]
fn scores_follow_cost_and_outcome() {
    assert_eq!(estimate_node_score(0, "x"), 820);
    assert_eq!(estimate_node_score(100, "x"), 780);
    assert_eq!(estimate_node_score(500, ""), 380);
    assert_eq!(estimate_node_score(5000, "x"), 420);
    assert_eq!(join_strs(&["a", "b", "c"], ", "), "a, b, c");
    assert_eq!(join_strs(&[], ", "), "");
}

#[test]
fn depth_and_ancestors() {
    let e = engine();
    let mut dag = e.create_plan_with_ids("g", "c", &[], 3, 1, 1, &[2]);
    let ids = e.expand_node_with_ids(&mut dag, 2, 2, &[3, 4]).unwrap();
    assert_eq!(ids, vec![3, 4]);
    assert_eq!(dag.depth_of(1), 0);
    assert_eq!(dag.depth_of(2), 1);
    assert_eq!(dag.depth_of(4), 2);
    assert_eq!(dag.depth_of(99), 0);
    assert_eq!(dag.ancestors(4), vec![2, 1]);
    assert!(dag.ancestors(1).is_empty());
    let alt = dag.node(3).unwrap();
    assert_eq!(alt.thought, "Alternative 1 for: Step 1: approach 1 for 'g'");
    assert_eq!(alt.expected_outcome, "Expected outcome of alternative 1");
    assert_eq!(dag.node(2).unwrap().children, vec![3, 4]);
}

#[test]
fn expansion_is_refused_at_depth_limit() {
    let e = engine();
    let mut dag = e.create_plan_with_ids("g", "c", &[], 1, 1, 1, &[2]);
    assert!(matches!(e.expand_node_with_ids(&mut dag, 2, 1, &[3]), Err(PlannerError::MaxDepthExceeded)));
    assert!(matches!(e.expand_node_with_ids(&mut dag, 77, 1, &[3]), Err(PlannerError::NodeNotFound(77))));
    assert_eq!(dag.node_count(), 2);
    assert!(e.expand_node(&mut dag, 1, 2).is_ok());
    assert_eq!(dag.node_count(), 4);
}

#[test]
fn execution_order_is_leaves_first() {
    let e = engine();
    let mut dag = e.create_plan_with_ids("g", "c", &[], 3, 2, 1, &[2, 3]);
    e.expand_node_with_ids(&mut dag, 2, 1, &[4]).unwrap();
    let order = dag.topological_order().unwrap();
    assert_eq!(order, vec![4, 2, 3, 1]);
}

#[test]
fn replanning_prunes_the_failed_subtree() {
    let e = engine();
    let mut dag = e.create_plan_with_ids("g", "c", &[], 3, 2, 1, &[2, 3]);
    e.expand_node_with_ids(&mut dag, 2, 1, &[4]).unwrap();
    let r = e.replan_on_failure_with_id(&mut dag, 2, "boom", 5).unwrap();
    assert_eq!(r, vec![5]);
    assert!(matches!(dag.node(2).unwrap().status, PlanNodeStatus::Pruned));
    assert!(matches!(dag.node(4).unwrap().status, PlanNodeStatus::Pruned));
    assert!(matches!(dag.node(3).unwrap().status, PlanNodeStatus::Pending));
    let rec = dag.node(5).unwrap();
    assert_eq!(rec.parent_id, Some(1));
    assert_eq!(rec.thought, "Recovery from failure 'boom': retry with fallback approach");
    assert_eq!(rec.score, 600);
    assert!(matches!(
        e.replan_on_failure_with_id(&mut dag, 42, "x", 6),
        Err(PlannerError::NodeNotFound(42))
    ));
}

#[test]
fn pruning_spares_the_root() {
    let e = engine();
    let mut dag = e.create_plan_with_ids("g", "c", &[], 3, 3, 1, &[2, 3, 4]);
    // scores: 780, 740, 700; root 800
    let n = e.prune_unlikely(&mut dag, 750);
    assert_eq!(n, 2);
    assert!(matches!(dag.node(2).unwrap().status, PlanNodeStatus::Pending));
    assert!(matches!(dag.node(3).unwrap().status, PlanNodeStatus::Pruned));
    assert!(matches!(dag.node(1).unwrap().status, PlanNodeStatus::Pending));
    assert_eq!(e.prune_unlikely(&mut dag, 2000), 1);
}

#[test]
fn approval_depends_on_mean_score() {
    let e = engine();
    let dag = e.create_plan_with_ids("g", "c", &[], 3, 1, 1, &[2]);
    // mean of 800 and 780 is below 850
    assert!(e.approve_plan(&dag));
    let lenient = PlanningEngine::new(PlanApprovalPolicy {
        auto_approve_if_score_above: 700,
        require_approval_for_file_writes: true,
        require_approval_for_network: false,
    });
    assert!(!lenient.approve_plan(&dag));
}

#[test]
fn runs_walk_the_order() {
    let e = engine();
    let mut dag = e.create_plan_with_ids("g", "c", &[], 3, 1, 1, &[2]);
    let mut run = PlanRun::start(&dag).unwrap();
    assert!(matches!(run.step(&mut dag), RunStep::Passed));
    assert!(matches!(dag.node(2).unwrap().status, PlanNodeStatus::Completed { .. }));
    assert!(matches!(run.step(&mut dag), RunStep::Passed));
    match run.step(&mut dag) {
        RunStep::Finished(v) => assert!(v.is_none()),
        _ => panic!("expected the end of the run"),
    }
    let r = run.report(&mut dag, 2, Err("bad".to_string()));
    assert!(matches!(r, Err(PlannerError::ExecutionError(2, _))));
    assert!(matches!(dag.node(2).unwrap().status, PlanNodeStatus::Failed { .. }));
    let ok = run.report(&mut dag, 1, Ok(serde_json::Value::Bool(true)));
    assert!(ok.is_ok());
    let _ = Action {
        tool_name: "write_file".to_string(),
        parameters: serde_json::Value::Null,
        requires_approval: false,
    };
}

fn step(id: u128, children: Vec<u128>) -> PlanNode {
    PlanNode {
        id,
        parent_id: None,
        thought: String::new(),
        action: None,
        estimated_cost: 0,
        expected_outcome: String::new(),
        children,
        status: PlanNodeStatus::Pending,
        score: 500,
    }
}

#[test]
fn shared_children_are_listed_once_before_their_parents() {
    // 1 -> 2, 3; 2 -> 4; 3 -> 4; 9 is not reached.
    let steps = vec![step(4, vec![]), step(1, vec![2, 3]), step(3, vec![4]), step(9, vec![1]), step(2, vec![4])];
    let order = order_steps(&steps, 1).unwrap();
    assert_eq!(order, vec![4, 2, 3, 1]);
    let leaf_only = order_steps(&steps, 4).unwrap();
    assert_eq!(leaf_only, vec![4]);
}

#[test]
fn cycles_and_missing_steps_are_refused() {
    let cyclic = vec![step(1, vec![2]), step(2, vec![3]), step(3, vec![2])];
    assert!(matches!(order_steps(&cyclic, 1), Err(PlannerError::CycleDetected)));
    let self_loop = vec![step(1, vec![1])];
    assert!(matches!(order_steps(&self_loop, 1), Err(PlannerError::CycleDetected)));
    let missing = vec![step(1, vec![2, 7]), step(2, vec![])];
    assert!(matches!(order_steps(&missing, 1), Err(PlannerError::NodeNotFound(7))));
    assert!(matches!(order_steps(&missing, 5), Err(PlannerError::NodeNotFound(5))));
    let unreached_cycle = vec![step(1, vec![]), step(2, vec![3]), step(3, vec![2])];
    assert_eq!(order_steps(&unreached_cycle, 1).unwrap(), vec![1]);
}
