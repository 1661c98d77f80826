use k8s_simulator::api_server::APIServer;
use k8s_simulator::cluster_autoscaler_algorithm::SimpleClusterAutoscalerAlgorithm;
use k8s_simulator::deployment::{get_replica_count, Deployment, PodTemplate};
use k8s_simulator::event_queue::{Component, EventQueue};
use k8s_simulator::events::{Event, MoveRequest, RemoveNode, SchedulingCycle};
use k8s_simulator::histogram::Histogram;
use k8s_simulator::horizontal_autoscaler_algorithm::{ControlledResources, ReplicaLoad, ResourcesHorizontalAutoscalerAlgorithm};
use k8s_simulator::load_model::{
    split_between_replicas, ConstantLoadModel, DecreaseLoadModel, IncreaseLoadModel, LoadModel, ResourceSnapshot,
    TraceLoadModel,
};
use k8s_simulator::metrics_server::{MetricsServer, PodSnapshot, PodStatistic};
use k8s_simulator::node::{Node, NodeState};
use k8s_simulator::pod::{Pod, PodStatus};
use k8s_simulator::scheduler::{calculate_backoff_duration, Decision, Scheduler};
use k8s_simulator::scheduler_algorithm::{best_score_index, LRPAlgorithm, MRPAlgorithm, SchedulerAlgorithm};
use k8s_simulator::simulation::K8sSimulation;
use k8s_simulator::simulation_config::{NodeConfig, SimulationConfig};
use k8s_simulator::vertical_autoscaler_algorithm::{AutoVerticalAutoscalerAlgorithm, ControlledValuesMode};

fn constant(v: u64) -> LoadModel {
    LoadModel::Constant(ConstantLoadModel::new(v))
}

fn pod(id: u64, req_cpu: u64, req_mem: u64, lim_cpu: u64, lim_mem: u64, cpu: LoadModel, mem: LoadModel) -> Pod {
    Pod::new(id, cpu, mem, req_cpu, req_mem, lim_cpu, lim_mem, 100, PodStatus::Pending, None)
}

#[test]
fn histogram_percentiles_min_max_and_window() {
    let mut h = Histogram::new(10_000);
    assert_eq!(h.bucket_size, 100);
    assert_eq!(h.percentile(500), -1);
    assert_eq!(h.min(), -1);
    assert_eq!(h.max(), -1);
    h.add_sample(1000, 1, 30);
    h.add_sample(2500, 1, 60);
    h.add_sample(9_999_999, 1, 90);
    assert_eq!(h.total_weight, 3);
    assert_eq!(h.bucket_weight.iter().sum::<u64>(), h.total_weight);
    assert_eq!(h.percentile(0), 1100);
    assert_eq!(h.percentile(500), 2600);
    assert_eq!(h.percentile(1000), 9900);
    assert_eq!(h.min(), 1000);
    assert_eq!(h.max(), 9900);
    assert_eq!(h.history_time(), 60);
}

#[test]
fn histogram_percentile_is_monotone_in_the_fraction() {
    let mut h = Histogram::new(5000);
    for (i, v) in [100u64, 700, 700, 1900, 4200, 4999].iter().enumerate() {
        h.add_sample(*v, (i as u64) + 1, i as u64);
    }
    let mut last = -1;
    for q in (0..=1000).step_by(50) {
        let p = h.percentile(q);
        assert!(p >= last);
        last = p;
    }
}

#[test]
fn histogram_small_range_uses_unit_buckets() {
    let h = Histogram::new(50);
    assert_eq!(h.bucket_size, 1);
}

#[test]
fn backoff_doubles_and_caps() {
    assert_eq!(calculate_backoff_duration(0, 1000, 10_000), 1000);
    assert_eq!(calculate_backoff_duration(1, 1000, 10_000), 1000);
    assert_eq!(calculate_backoff_duration(2, 1000, 10_000), 2000);
    assert_eq!(calculate_backoff_duration(4, 1000, 10_000), 8000);
    assert_eq!(calculate_backoff_duration(5, 1000, 10_000), 10_000);
    assert_eq!(calculate_backoff_duration(u64::MAX, 1000, 10_000), 10_000);
    let mut last = 0;
    for a in 0..70u64 {
        let d = calculate_backoff_duration(a, 1000, 10_000);
        assert!(d >= last && d <= 10_000);
        last = d;
    }
}

#[test]
fn load_models_give_exact_values() {
    assert_eq!(split_between_replicas(10_000, 4), 2500);
    assert_eq!(split_between_replicas(10_000, 0), 10_000);
    let c = constant(10_000);
    assert_eq!(c.resource_at(0, 0, 2), 5000);
    let inc = LoadModel::Increase(IncreaseLoadModel::new(100_000, 4000, 10_000));
    assert_eq!(inc.resource_at(0, 0, 1), 4000);
    assert_eq!(inc.resource_at(0, 50_000, 1), 7000);
    assert_eq!(inc.resource_at(0, 500_000, 1), 10_000);
    let dec = LoadModel::Decrease(DecreaseLoadModel::new(100_000, 8000, 2000));
    assert_eq!(dec.resource_at(0, 25_000, 1), 6500);
    assert_eq!(dec.resource_at(0, 100_000, 2), 1000);
}

#[test]
fn trace_model_follows_its_snapshots_with_a_cursor() {
    let history = vec![
        ResourceSnapshot { timestamp: 0, resource: 100 },
        ResourceSnapshot { timestamp: 1000, resource: 200 },
        ResourceSnapshot { timestamp: 5000, resource: 300 },
    ];
    let mut t = TraceLoadModel::new(history);
    assert_eq!(t.get_now_resource_snapshot(0, 4999), 1);
    assert_eq!(t.get_resource(3000, 0, 1), 200);
    assert_eq!(t.now_ptr, 1);
    assert_eq!(t.get_resource(6000, 0, 2), 150);
    assert_eq!(t.get_resource(500, 0, 1), 100);
    assert_eq!(t.now_ptr, 0);
    let model = LoadModel::Trace(t);
    assert_eq!(model.resource_at(7000, 1000, 1), 300);
}

#[test]
fn node_admits_then_removal_restores_loads() {
    let mut n = Node::new(1, 10_000, 10_000, NodeState::Working);
    let p = pod(7, 2000, 3000, 4000, 5000, constant(3000), constant(4000));
    assert!(n.add_pod(p, 5000, 1).is_none());
    assert_eq!((n.cpu_allocated, n.memory_allocated, n.cpu_used, n.memory_used), (3000, 4000, 3000, 4000));
    assert_eq!(n.pods[0].start_time, 5000);
    let back = n.remove_pod(7).unwrap();
    assert_eq!((back.cpu, back.memory), (0, 0));
    assert_eq!((n.cpu_allocated, n.memory_allocated, n.cpu_used, n.memory_used), (0, 0, 0, 0));
    assert!(n.remove_pod(7).is_none());
}

#[test]
fn node_allocates_the_request_when_use_is_lower() {
    let mut n = Node::new(1, 10_000, 10_000, NodeState::Working);
    let p = pod(1, 5000, 6000, 8000, 8000, constant(1000), constant(2000));
    assert!(n.add_pod(p, 0, 1).is_none());
    assert_eq!((n.cpu_allocated, n.memory_allocated, n.cpu_used, n.memory_used), (5000, 6000, 1000, 2000));
    assert_eq!(n.get_free_cpu(), 5000);
    assert_eq!(n.get_free_memory(), 4000);
}

#[test]
fn node_rejects_a_pod_that_does_not_fit() {
    let mut n = Node::new(1, 10_000, 10_000, NodeState::Working);
    let p = pod(3, 20_000, 1000, 20_000, 1000, constant(1000), constant(1000));
    let back = n.add_pod(p, 0, 1).unwrap();
    assert_eq!(back.id, 3);
    assert_eq!((n.cpu_allocated, n.memory_allocated), (0, 0));
    assert!(n.pods.is_empty());
}

#[test]
fn node_pressure_guard() {
    let n = Node::new(1, 10_000, 10_000, NodeState::Working);
    assert!(n.can_place_pod(1000, 9000, 950));
    assert!(!n.can_place_pod(1000, 9500, 950));
    assert!(!n.can_place_pod(11_000, 1000, 950));
}

#[test]
fn reconciliation_evicts_a_pod_whose_memory_outgrows_the_node() {
    let mut n = Node::new(1, 10_000, 5000, NodeState::Working);
    let p = pod(4, 1000, 1000, 2000, 9000, constant(1000), LoadModel::Increase(IncreaseLoadModel::new(10_000, 1000, 9000)));
    assert!(n.add_pod(p, 0, 1).is_none());
    assert_eq!(n.memory_allocated, 1000);
    let evicted = n.update_pods_resources(10_000, &Vec::new());
    assert_eq!(evicted.len(), 1);
    assert_eq!(evicted[0].id, 4);
    assert!(n.pods.is_empty());
    assert_eq!((n.cpu_allocated, n.memory_allocated), (0, 0));
    assert_eq!(n.memory_overuse_count, 1);
}

#[test]
fn reconciliation_follows_demand_within_free_room() {
    let mut n = Node::new(1, 10_000, 10_000, NodeState::Working);
    let p = pod(4, 1000, 1000, 9000, 9000,
        LoadModel::Increase(IncreaseLoadModel::new(10_000, 1000, 5000)),
        LoadModel::Increase(IncreaseLoadModel::new(10_000, 1000, 3000)));
    assert!(n.add_pod(p, 0, 1).is_none());
    let evicted = n.update_pods_resources(5000, &Vec::new());
    assert!(evicted.is_empty());
    assert_eq!((n.cpu_used, n.memory_used), (3000, 2000));
    assert_eq!((n.cpu_allocated, n.memory_allocated), (3000, 2000));
    assert_eq!(n.memory_overuse_count, 1);
}

fn two_nodes() -> Vec<Node> {
    let n1 = Node::new(1, 10_000, 10_000, NodeState::Working);
    let mut n2 = Node::new(2, 10_000, 10_000, NodeState::Working);
    assert!(n2.add_pod(pod(9, 4000, 4000, 4000, 4000, constant(4000), constant(4000)), 0, 1).is_none());
    vec![n1, n2]
}

#[test]
fn most_requested_prefers_the_fuller_node() {
    let nodes = two_nodes();
    let p = pod(1, 2000, 2000, 2000, 2000, constant(2000), constant(2000));
    let alg = SchedulerAlgorithm::Mrp(MRPAlgorithm::new());
    let candidates = alg.filter(&p, &nodes, 950);
    assert_eq!(candidates, vec![0, 1]);
    let scores = alg.score(&p, &nodes, &candidates);
    assert_eq!(scores, vec![400_000, 1_200_000]);
    assert_eq!(best_score_index(&scores), 1);
}

#[test]
fn least_requested_prefers_the_emptier_node() {
    let nodes = two_nodes();
    let p = pod(1, 2000, 2000, 2000, 2000, constant(2000), constant(2000));
    let alg = SchedulerAlgorithm::Lrp(LRPAlgorithm::new());
    let candidates = alg.filter(&p, &nodes, 950);
    let scores = alg.score(&p, &nodes, &candidates);
    assert_eq!(scores, vec![1_600_000, 800_000]);
    assert_eq!(best_score_index(&scores), 0);
    assert_eq!(best_score_index(&vec![5, 7, 7, 1]), 1);
}

#[test]
fn oversized_pod_has_no_candidate() {
    let nodes = two_nodes();
    let p = pod(1, 20_000, 1000, 20_000, 1000, constant(1000), constant(1000));
    assert!(SchedulerAlgorithm::Mrp(MRPAlgorithm::new()).filter(&p, &nodes, 950).is_empty());
}

#[test]
fn scheduler_takes_the_highest_priority_first() {
    let mut s = Scheduler::new(SchedulerAlgorithm::Mrp(MRPAlgorithm::new()));
    let mut a = pod(1, 1, 1, 1, 1, constant(1), constant(1));
    a.priority_weight = 5;
    let mut b = pod(2, 1, 1, 1, 1, constant(1), constant(1));
    b.priority_weight = 9;
    let mut c = pod(3, 1, 1, 1, 1, constant(1), constant(1));
    c.priority_weight = 9;
    assert!(s.add_pod(a));
    assert!(!s.add_pod(b));
    assert!(!s.add_pod(c));
    assert_eq!(s.get_pod().unwrap().id, 2);
    assert_eq!(s.get_pod().unwrap().id, 3);
    assert_eq!(s.get_pod().unwrap().id, 1);
    assert!(s.get_pod().is_none());
}

#[test]
fn failed_pods_go_unschedulable_then_to_backoff_after_a_move() {
    let mut s = Scheduler::new(SchedulerAlgorithm::Mrp(MRPAlgorithm::new()));
    let nodes: Vec<Node> = Vec::new();
    s.add_pod(pod(1, 1000, 1000, 1000, 1000, constant(1000), constant(1000)));
    let d = s.schedule_next_pod(&nodes, 950).unwrap();
    let (p, cycle) = match d {
        Decision::Failed { pod, scheduling_cycle } => (pod, scheduling_cycle),
        Decision::Assigned { .. } => panic!("no node can take the pod"),
    };
    assert_eq!(cycle, 1);
    assert!(s.add_pod_to_unschedulable(p, cycle, 5000, 1000, 10_000).is_none());
    assert_eq!(s.unschedulable_queue.len(), 1);
    assert_eq!(s.unschedulable_queue[0].scheduling_timestamp, Some(5000));
    assert_eq!(s.unschedulable_queue[0].scheduling_attempts, Some(1));
    // A move right away: the backoff of 1 s has not run out yet.
    let (backoffs, became_active) = s.move_all_to_active_or_backoff(5500, 1000, 10_000);
    assert_eq!(backoffs.len(), 1);
    assert_eq!(backoffs[0].1, 500);
    assert!(!became_active);
    assert_eq!(s.moving_cycle, Some(1));
    // A failure from a cycle that began before the move goes to backoff directly.
    let (p, _) = backoffs.into_iter().next().unwrap();
    let r = s.add_pod_to_unschedulable(p, 1, 6000, 1000, 10_000).unwrap();
    assert_eq!(r.1, 2000);
}

#[test]
fn scale_up_never_triggers_without_pending_pods() {
    let mut ca = SimpleClusterAutoscalerAlgorithm::new(600_000, 10, 0);
    let default_node = NodeConfig::new(8000, 64_000, 1);
    assert_eq!(ca.try_to_scale_up(&Vec::new(), 1_000_000, &default_node), 0);
}

#[test]
fn scale_up_packs_pending_pods_onto_default_nodes() {
    let mut ca = SimpleClusterAutoscalerAlgorithm::new(600_000, 10, 300_000);
    let default_node = NodeConfig::new(8000, 64_000, 1);
    let pending: Vec<Pod> = (1..=3).map(|i| pod(i, 4000, 6000, 4000, 6000, constant(1), constant(1))).collect();
    assert_eq!(ca.try_to_scale_up(&pending, 100_000, &default_node), 0);
    assert_eq!(ca.try_to_scale_up(&pending, 300_000, &default_node), 2);
    assert_eq!(ca.last_scale_up_time, 300_000);
    assert_eq!(ca.try_to_scale_up(&pending, 400_000, &default_node), 0);
    let big = vec![pod(9, 20_000, 1000, 20_000, 1000, constant(1), constant(1))];
    assert_eq!(ca.try_to_scale_up(&big, 600_000, &default_node), 2);
}

#[test]
fn scale_down_removes_only_nodes_idle_long_enough() {
    let mut ca = SimpleClusterAutoscalerAlgorithm::new(600_000, 10, 0);
    let mut busy = Node::new(2, 10_000, 10_000, NodeState::Working);
    assert!(busy.add_pod(pod(5, 1000, 1000, 1000, 1000, constant(1000), constant(1000)), 0, 1).is_none());
    let nodes = vec![Node::new(1, 10_000, 10_000, NodeState::Working), busy];
    assert!(ca.try_to_scale_down(&nodes, 0).is_empty());
    assert!(ca.try_to_scale_down(&nodes, 599_999).is_empty());
    assert_eq!(ca.try_to_scale_down(&nodes, 600_000), vec![1]);
    assert!(ca.find_tracked(1).is_none());
    assert!(ca.find_tracked(2).is_none());
}

#[test]
fn scale_down_respects_the_bulk_limit() {
    let mut ca = SimpleClusterAutoscalerAlgorithm::new(0, 2, 0);
    let nodes: Vec<Node> = (1..=4).map(|i| Node::new(i, 1000, 1000, NodeState::Working)).collect();
    assert!(ca.try_to_scale_down(&nodes, 10).is_empty());
    assert_eq!(ca.try_to_scale_down(&nodes, 10), vec![1, 2]);
}

#[test]
fn horizontal_count_targets_the_utilization() {
    let mut hpa = ResourcesHorizontalAutoscalerAlgorithm::new(
        ControlledResources::CPUOnly { cpu_utilization: Some(500) },
        300_000,
        300_000,
        1,
        10,
    );
    let load = |h: u64, cpu: u64| ReplicaLoad {
        history_time: h,
        last_snapshot: PodSnapshot { cpu, memory: 0, snapshot_time: 0 },
    };
    assert_eq!(hpa.get_new_count_replicas(1, 1, 5000, 10_000, &vec![load(100_000, 5000)], 500_000), 1);
    assert_eq!(hpa.get_new_count_replicas(1, 1, 5000, 10_000, &vec![load(400_000, 5000)], 500_000), 2);
    assert_eq!(hpa.get_new_count_replicas(1, 4, 5000, 10_000, &vec![load(400_000, 1000); 4], 500_000), 2);
    // Within the stabilization time after that downscale, the count stays.
    assert_eq!(hpa.get_new_count_replicas(1, 2, 5000, 10_000, &vec![load(400_000, 9000); 2], 600_000), 2);
    assert_eq!(hpa.get_new_count_replicas(1, 2, 5000, 10_000, &vec![load(400_000, 50_000); 2], 900_000), 10);
}

#[test]
fn horizontal_count_in_both_mode_takes_the_larger() {
    let mut hpa = ResourcesHorizontalAutoscalerAlgorithm::new(
        ControlledResources::CPUAndMemory { cpu_utilization: None, memory_utilization: Some(250) },
        0,
        0,
        1,
        100,
    );
    let loads = vec![ReplicaLoad { history_time: 0, last_snapshot: PodSnapshot { cpu: 1000, memory: 1000, snapshot_time: 0 } }];
    assert_eq!(hpa.get_new_count_replicas(3, 1, 1000, 1000, &loads, 0), 4);
}

fn statistic(limit: u64, value: u64, first: u64, last: u64) -> PodStatistic {
    let mut cpu = Histogram::new(limit);
    let mut memory = Histogram::new(limit);
    cpu.add_sample(value, 1, first);
    cpu.add_sample(value, 1, last);
    memory.add_sample(value, 1, first);
    memory.add_sample(value, 1, last);
    PodStatistic {
        pod_id: 1,
        cpu_distribution: cpu,
        memory_distribution: memory,
        last_snapshot: PodSnapshot { cpu: value, memory: value, snapshot_time: last },
    }
}

#[test]
fn vertical_recommendation_shrinks_an_oversized_request() {
    let p = pod(1, 10_000, 10_000, 10_000, 10_000, constant(1000), constant(1000));
    let stat = statistic(10_000, 1000, 0, 100_000_000);
    let vpa = AutoVerticalAutoscalerAlgorithm::new(ControlledValuesMode::RequestsAndLimits);
    let r = vpa.get_recommendation(&p, &stat).unwrap();
    assert_eq!((r.new_requested_cpu, r.new_limit_cpu), (1100, 1100));
    assert_eq!((r.new_requested_memory, r.new_limit_memory), (1100, 1100));
    let vpa = AutoVerticalAutoscalerAlgorithm::new(ControlledValuesMode::RequestsOnly);
    let r = vpa.get_recommendation(&p, &stat).unwrap();
    assert_eq!((r.new_requested_cpu, r.new_limit_cpu), (1100, 10_000));
    assert!(vpa.try_to_apply_recommendation(&p, &r));
}

#[test]
fn vertical_recommendation_leaves_a_fitting_request_and_an_empty_window() {
    let p = pod(1, 1100, 1100, 10_000, 10_000, constant(1000), constant(1000));
    let vpa = AutoVerticalAutoscalerAlgorithm::new(ControlledValuesMode::RequestsAndLimits);
    assert!(vpa.get_recommendation(&p, &statistic(10_000, 1000, 0, 100_000_000)).is_none());
    let q = pod(1, 10_000, 10_000, 10_000, 10_000, constant(1000), constant(1000));
    assert!(vpa.get_recommendation(&q, &statistic(10_000, 1000, 50, 50)).is_none());
}

#[test]
fn metrics_server_records_and_clears() {
    let mut m = MetricsServer::new();
    let mut n = Node::new(1, 10_000, 10_000, NodeState::Working);
    assert!(n.add_pod(pod(3, 1000, 1000, 4000, 4000, constant(2000), constant(3000)), 0, 1).is_none());
    let nodes = vec![n];
    m.make_snapshot(&nodes, 30_000);
    m.make_snapshot(&nodes, 60_000);
    let s = m.get_pod_statistics(3).unwrap();
    assert_eq!((s.last_snapshot.cpu, s.last_snapshot.memory, s.last_snapshot.snapshot_time), (2000, 3000, 60_000));
    assert_eq!(s.cpu_distribution.total_weight, 2);
    assert_eq!(s.cpu_distribution.history_time(), 30_000);
    m.clear_pod_statistics(3);
    assert!(m.get_pod_statistics(3).is_none());
}

#[test]
fn events_come_out_by_time_then_emission_order() {
    let mut q = EventQueue::new();
    q.emit(Event::MoveRequest(MoveRequest {}), Component::Scheduler, 5);
    q.emit(Event::SchedulingCycle(SchedulingCycle {}), Component::Scheduler, 3);
    q.emit(Event::RemoveNode(RemoveNode { node_id: 4 }), Component::ApiServer, 3);
    let a = q.pop_next().unwrap();
    assert!(matches!(a.event, Event::SchedulingCycle(_)));
    assert_eq!(q.now, 3);
    let b = q.pop_next().unwrap();
    assert!(matches!(b.event, Event::RemoveNode(RemoveNode { node_id: 4 })));
    let c = q.pop_next().unwrap();
    assert!(matches!(c.event, Event::MoveRequest(_)));
    assert_eq!(q.now, 5);
    assert!(q.pop_next().is_none());
    assert_eq!(q.event_count, 3);
}

#[test]
fn replicas_are_minted_from_the_template() {
    let template = PodTemplate {
        cpu_load_model: constant(5000),
        memory_load_model: constant(10_000),
        requested_cpu: 5000,
        requested_memory: 10_000,
        limit_cpu: 6000,
        limit_memory: 12_000,
        priority_weight: 7,
    };
    let d = Deployment::new(4, template, 3);
    let p = d.create_new_replica(11);
    assert_eq!((p.id, p.requested_cpu, p.limit_memory, p.priority_weight, p.deployment_id), (11, 5000, 12_000, 7, Some(4)));
    assert_eq!(p.status, PodStatus::Pending);
    let deps = vec![d];
    assert_eq!(get_replica_count(&deps, Some(4)), 3);
    assert_eq!(get_replica_count(&deps, Some(5)), 1);
    assert_eq!(get_replica_count(&deps, None), 1);
}

#[test]
fn crash_then_recover_restores_capacity() {
    let mut sim = K8sSimulation::new(SimulationConfig::new(), SchedulerAlgorithm::Mrp(MRPAlgorithm::new()), None, None, None);
    let n1 = sim.add_node(20_000, 20_000);
    sim.submit_pod(5000, 5000, 5000, 5000, 100, constant(5000), constant(5000), 1000);
    sim.step_for_duration(10_000);
    assert_eq!(sim.node(n1).unwrap().cpu_allocated, 5000);
    sim.crash_node(n1, 0);
    sim.step_for_duration(1000);
    let failed = sim.node(n1).unwrap();
    assert_eq!(failed.state, NodeState::Failed);
    assert_eq!((failed.cpu_allocated, failed.memory_allocated, failed.cpu_used, failed.memory_used), (0, 0, 0, 0));
    assert!(failed.pods.is_empty());
    sim.recover_node(n1, 0);
    sim.step_for_duration(100_000);
    let back = sim.node(n1).unwrap();
    assert_eq!(back.state, NodeState::Working);
    assert_eq!((back.cpu_total, back.memory_total), (20_000, 20_000));
    // The pod comes back onto the recovered node.
    assert_eq!(back.cpu_allocated, 5000);
    assert_eq!(sim.failed_nodes().len(), 0);
}

#[test]
fn submit_then_remove_restores_node_loads() {
    let mut sim = K8sSimulation::new(SimulationConfig::new(), SchedulerAlgorithm::Lrp(LRPAlgorithm::new()), None, None, None);
    let n1 = sim.add_node(20_000, 20_000);
    let id = sim.submit_pod(3000, 4000, 3000, 4000, 1, constant(2000), constant(4000), 0);
    sim.step_for_duration(5000);
    assert_eq!(sim.node(n1).unwrap().cpu_allocated, 3000);
    assert_eq!(sim.node(n1).unwrap().cpu_used, 2000);
    sim.remove_pod(id);
    sim.step_for_duration(5000);
    let n = sim.node(n1).unwrap();
    assert_eq!((n.cpu_allocated, n.memory_allocated, n.cpu_used, n.memory_used), (0, 0, 0, 0));
}

#[test]
fn simulation_reports_loads_and_time() {
    let mut config = SimulationConfig::new();
    config.nodes.push(NodeConfig::new(10_000, 10_000, 2));
    let mut sim = K8sSimulation::new(config, SchedulerAlgorithm::Mrp(MRPAlgorithm::new()), None, None, None);
    assert_eq!(sim.working_nodes().len(), 2);
    sim.submit_pod(5000, 2000, 5000, 2000, 1, constant(5000), constant(1000), 0);
    sim.step_for_duration(1000);
    assert_eq!(sim.current_time(), 1000);
    assert_eq!(sim.average_cpu_allocated(), 2500);
    assert_eq!(sim.average_memory_used(), 500);
    assert_eq!(sim.cpu_allocated_load_rate(), 250_000);
    assert_eq!(sim.memory_allocated_load_rate(), 100_000);
    assert_eq!(sim.cpu_used_load_rate(), 250_000);
    assert_eq!(sim.memory_used_load_rate(), 50_000);
    assert!(sim.event_count() > 0);
    assert!(sim.steps(1));
    assert!(sim.node(999).is_none());
}

#[test]
fn scale_down_without_bulk_limit_takes_every_idle_node() {
    let mut ca = SimpleClusterAutoscalerAlgorithm::new(0, 0, 0);
    let nodes: Vec<Node> = (1..=4).map(|i| Node::new(i, 1000, 1000, NodeState::Working)).collect();
    assert!(ca.try_to_scale_down(&nodes, 10).is_empty());
    assert_eq!(ca.try_to_scale_down(&nodes, 10), vec![1, 2, 3, 4]);
}

#[test]
fn flush_moves_only_pods_waiting_long_enough() {
    let mut s = Scheduler::new(SchedulerAlgorithm::Mrp(MRPAlgorithm::new()));
    let first = pod(1, 1, 1, 1, 1, constant(1), constant(1));
    let second = pod(2, 1, 1, 1, 1, constant(1), constant(1));
    assert!(s.add_pod_to_unschedulable(first, 1, 0, 1000, 10_000).is_none());
    assert!(s.add_pod_to_unschedulable(second, 2, 20_000, 1000, 10_000).is_none());
    let (backoffs, became_active) = s.flush_unschedulable_queue(30_000, 1000, 10_000);
    assert!(backoffs.is_empty());
    assert!(became_active);
    assert_eq!(s.unschedulable_queue.len(), 1);
    assert_eq!(s.unschedulable_queue[0].id, 2);
    assert_eq!(s.active_queue.len(), 1);
    assert_eq!(s.active_queue[0].id, 1);
}

#[test]
fn metrics_log_records_snapshots_periodically() {
    let mut sim = K8sSimulation::new(SimulationConfig::new(), SchedulerAlgorithm::Mrp(MRPAlgorithm::new()), None, None, None);
    sim.add_node(10_000, 10_000);
    sim.enable_metrics_log(10_000);
    sim.submit_pod(2000, 3000, 2000, 3000, 1, constant(2000), constant(3000), 0);
    sim.step_for_duration(30_000);
    assert_eq!(sim.metrics_log.len(), 3);
    let m = sim.metrics_log[2];
    assert_eq!(m.timestamp, 30_000);
    assert_eq!(m.nodes_count, 1);
    assert_eq!(m.cpu_allocated_load_rate, 200_000);
    assert_eq!(m.memory_used_load_rate, 300_000);
    assert_eq!(m.summary_pods_count, 1);
}

#[test]
fn api_server_crash_recover_and_remove() {
    let mut api = APIServer::new();
    let mut n = Node::new(3, 8000, 8000, NodeState::Working);
    assert!(n.add_pod(pod(1, 1000, 1000, 1000, 1000, constant(500), constant(500)), 0, 1).is_none());
    api.add_new_node(n);
    api.add_new_node(Node::new(2, 8000, 8000, NodeState::Working));
    assert_eq!(api.working_nodes.iter().map(|n| n.id).collect::<Vec<_>>(), vec![2, 3]);
    api.set_pod_node(1, 3);
    assert_eq!(api.get_pod_node(1), Some(3));

    let pods = api.crash_node(3);
    assert_eq!(pods.len(), 1);
    assert_eq!((pods[0].id, pods[0].cpu, pods[0].memory), (1, 0, 0));
    assert_eq!(api.failed_nodes.len(), 1);
    assert_eq!(api.failed_nodes[0].state, NodeState::Failed);
    assert!(api.crash_node(42).is_empty());

    assert!(api.recover_node(3));
    assert!(!api.recover_node(3));
    let back = &api.working_nodes[api.find_working(3).unwrap()];
    assert_eq!((back.state, back.cpu_total, back.cpu_allocated), (NodeState::Working, 8000, 0));

    api.remove_pod(1);
    assert_eq!(api.get_pod_node(1), None);
    assert!(api.remove_node(2).is_empty());
    assert!(api.find_working(2).is_none());
}

#[test]
fn replica_counts_and_deployment_utilization() {
    let mut sim = K8sSimulation::new(SimulationConfig::new(), SchedulerAlgorithm::Lrp(LRPAlgorithm::new()), None, None, None);
    sim.add_node(10_000, 20_000);
    sim.add_node(10_000, 20_000);
    let dep = sim.submit_deployment(5000, 10_000, 5000, 10_000, 1, constant(5000), constant(4000), 2, 0);
    sim.step_for_duration(5000);
    assert_eq!(sim.api_server.get_real_cnt_replicas(dep), 2);
    assert_eq!(sim.api_server.get_real_cnt_replicas(dep + 1), 1);
    assert_eq!(sim.api_server.deployment_to_replicas[0].len(), 2);
    // Each replica uses half of the deployment's demand: 2500 CPU of a 5000 request.
    assert_eq!(sim.deployments_utilization(true), 500_000);
    assert_eq!(sim.deployments_utilization(false), 200_000);
    let m = sim.log_metrics();
    assert_eq!(m.deployments_cpu_utilization, 500_000);
    assert_eq!(m.average_cpu_used, 2500);
}
