use k8s_simulator::cluster_autoscaler_algorithm::SimpleClusterAutoscalerAlgorithm;
use k8s_simulator::horizontal_autoscaler_algorithm::{ControlledResources, ResourcesHorizontalAutoscalerAlgorithm};
use k8s_simulator::load_model::{ConstantLoadModel, DecreaseLoadModel, IncreaseLoadModel, LoadModel};
use k8s_simulator::node::{Node, NodeState};
use k8s_simulator::scheduler_algorithm::{LRPAlgorithm, MRPAlgorithm, SchedulerAlgorithm};
use k8s_simulator::simulation::K8sSimulation;
use k8s_simulator::simulation_config::SimulationConfig;
use k8s_simulator::vertical_autoscaler_algorithm::{AutoVerticalAutoscalerAlgorithm, ControlledValuesMode};

// Amounts are in milli-units and times in milliseconds: 20.0 is 20_000, 1 s is 1000.

fn constant(v: u64) -> LoadModel {
    LoadModel::Constant(ConstantLoadModel::new(v))
}

fn get_default_simulation_with_mrp() -> K8sSimulation {
    K8sSimulation::new(SimulationConfig::new(), SchedulerAlgorithm::Mrp(MRPAlgorithm::new()), None, None, None)
}

fn node(sim: &K8sSimulation, id: u64) -> &Node {
    sim.node(id).unwrap()
}

#[test]
fn test_base_simulation_with_mrp() {
    let mut k8s_sim = get_default_simulation_with_mrp();
    let node_id_1 = k8s_sim.add_node(20_000, 20_000);
    let node_id_2 = k8s_sim.add_node(20_000, 20_000);

    k8s_sim.submit_pod(4000, 10_000, 4000, 10_000, 100, constant(4000), constant(10_000), 1000);
    k8s_sim.step_for_duration(100_000);
    assert_eq!(node(&k8s_sim, node_id_1).cpu_allocated, 4000);
    assert_eq!(node(&k8s_sim, node_id_1).memory_allocated, 10_000);
    assert_eq!(node(&k8s_sim, node_id_2).cpu_allocated, 0);
    assert_eq!(node(&k8s_sim, node_id_2).memory_allocated, 0);

    k8s_sim.submit_pod(4000, 5000, 4000, 5000, 100, constant(4000), constant(5000), 1000);
    k8s_sim.step_for_duration(100_000);
    assert_eq!(node(&k8s_sim, node_id_1).cpu_allocated, 8000);
    assert_eq!(node(&k8s_sim, node_id_1).memory_allocated, 15_000);
    assert_eq!(node(&k8s_sim, node_id_2).cpu_allocated, 0);
    assert_eq!(node(&k8s_sim, node_id_2).memory_allocated, 0);
}

#[test]
fn test_base_simulation_with_lrp() {
    let mut k8s_sim = K8sSimulation::new(
        SimulationConfig::new(),
        SchedulerAlgorithm::Lrp(LRPAlgorithm::new()),
        None,
        None,
        None,
    );
    let node_id_1 = k8s_sim.add_node(20_000, 20_000);
    let node_id_2 = k8s_sim.add_node(20_000, 20_000);

    k8s_sim.submit_pod(4000, 5000, 4000, 5000, 100, constant(4000), constant(5000), 1000);
    k8s_sim.step_for_duration(100_000);
    assert_eq!(node(&k8s_sim, node_id_1).cpu_allocated, 4000);
    assert_eq!(node(&k8s_sim, node_id_1).memory_allocated, 5000);
    assert_eq!(node(&k8s_sim, node_id_2).cpu_allocated, 0);
    assert_eq!(node(&k8s_sim, node_id_2).memory_allocated, 0);

    k8s_sim.submit_pod(4000, 5000, 4000, 5000, 100, constant(4000), constant(5000), 1000);
    k8s_sim.step_for_duration(100_000);
    assert_eq!(node(&k8s_sim, node_id_1).cpu_allocated, 4000);
    assert_eq!(node(&k8s_sim, node_id_1).memory_allocated, 5000);
    assert_eq!(node(&k8s_sim, node_id_2).cpu_allocated, 4000);
    assert_eq!(node(&k8s_sim, node_id_2).memory_allocated, 5000);
}

#[test]
fn test_pod_removing() {
    let mut k8s_sim = get_default_simulation_with_mrp();
    let node_id_1 = k8s_sim.add_node(20_000, 20_000);
    let node_id_2 = k8s_sim.add_node(20_000, 20_000);

    let pod_id_1 = k8s_sim.submit_pod(5000, 5000, 5000, 5000, 100, constant(5000), constant(5000), 1000);
    k8s_sim.step_for_duration(100_000);
    assert_eq!(node(&k8s_sim, node_id_1).cpu_allocated, 5000);
    assert_eq!(node(&k8s_sim, node_id_1).memory_allocated, 5000);
    assert_eq!(node(&k8s_sim, node_id_2).cpu_allocated, 0);
    assert_eq!(node(&k8s_sim, node_id_2).memory_allocated, 0);

    k8s_sim.remove_pod(pod_id_1);
    k8s_sim.step_for_duration(100_000);
    assert_eq!(node(&k8s_sim, node_id_1).cpu_allocated, 0);
    assert_eq!(node(&k8s_sim, node_id_1).memory_allocated, 0);
    assert_eq!(node(&k8s_sim, node_id_2).cpu_allocated, 0);
    assert_eq!(node(&k8s_sim, node_id_2).memory_allocated, 0);
}

#[test]
fn test_node_crashing() {
    let mut k8s_sim = get_default_simulation_with_mrp();
    let node_id_1 = k8s_sim.add_node(20_000, 20_000);
    let node_id_2 = k8s_sim.add_node(20_000, 20_000);

    k8s_sim.submit_pod(5000, 5000, 5000, 5000, 100, constant(5000), constant(5000), 1000);
    k8s_sim.step_for_duration(30_000);
    assert_eq!(node(&k8s_sim, node_id_1).cpu_allocated, 5000);
    assert_eq!(node(&k8s_sim, node_id_1).memory_allocated, 5000);
    assert_eq!(node(&k8s_sim, node_id_2).cpu_allocated, 0);
    assert_eq!(node(&k8s_sim, node_id_2).memory_allocated, 0);

    k8s_sim.crash_node(node_id_1, 1000);
    k8s_sim.step_for_duration(30_000);
    assert_eq!(node(&k8s_sim, node_id_1).state, NodeState::Failed);
    assert_eq!(node(&k8s_sim, node_id_1).cpu_allocated, 0);
    assert_eq!(node(&k8s_sim, node_id_1).memory_allocated, 0);
    assert_eq!(node(&k8s_sim, node_id_2).state, NodeState::Working);
    assert_eq!(node(&k8s_sim, node_id_2).cpu_allocated, 5000);
    assert_eq!(node(&k8s_sim, node_id_2).memory_allocated, 5000);

    k8s_sim.recover_node(node_id_1, 1000);
    k8s_sim.step_for_duration(30_000);
    k8s_sim.crash_node(node_id_2, 1000);
    k8s_sim.step_for_duration(30_000);
    assert_eq!(node(&k8s_sim, node_id_1).state, NodeState::Working);
    assert_eq!(node(&k8s_sim, node_id_1).cpu_allocated, 5000);
    assert_eq!(node(&k8s_sim, node_id_1).memory_allocated, 5000);
    assert_eq!(node(&k8s_sim, node_id_2).state, NodeState::Failed);
    assert_eq!(node(&k8s_sim, node_id_2).cpu_allocated, 0);
    assert_eq!(node(&k8s_sim, node_id_2).memory_allocated, 0);
}

#[test]
fn base_test_unschedulable_pod() {
    let mut k8s_sim = get_default_simulation_with_mrp();
    let node_id_1 = k8s_sim.add_node(20_000, 20_000);
    let node_id_2 = k8s_sim.add_node(20_000, 20_000);

    k8s_sim.submit_pod(30_000, 30_000, 30_000, 30_000, 100, constant(30_000), constant(30_000), 1000);
    k8s_sim.step_for_duration(0);
    assert_eq!(node(&k8s_sim, node_id_1).cpu_allocated, 0);
    assert_eq!(node(&k8s_sim, node_id_1).memory_allocated, 0);
    assert_eq!(node(&k8s_sim, node_id_2).cpu_allocated, 0);
    assert_eq!(node(&k8s_sim, node_id_2).memory_allocated, 0);

    let node_id_3 = k8s_sim.add_node(100_000, 100_000);
    k8s_sim.step_for_duration(100_000);
    assert_eq!(node(&k8s_sim, node_id_1).cpu_allocated, 0);
    assert_eq!(node(&k8s_sim, node_id_1).memory_allocated, 0);
    assert_eq!(node(&k8s_sim, node_id_2).cpu_allocated, 0);
    assert_eq!(node(&k8s_sim, node_id_2).memory_allocated, 0);
    assert_eq!(node(&k8s_sim, node_id_3).cpu_allocated, 30_000);
    assert_eq!(node(&k8s_sim, node_id_3).memory_allocated, 30_000);
}

fn cluster_autoscaler() -> Option<SimpleClusterAutoscalerAlgorithm> {
    Some(SimpleClusterAutoscalerAlgorithm::new(600_000, 10, 300_000))
}

#[test]
fn test_cluster_scale_up() {
    let mut k8s_sim = K8sSimulation::new(
        SimulationConfig::new(),
        SchedulerAlgorithm::Mrp(MRPAlgorithm::new()),
        cluster_autoscaler(),
        None,
        None,
    );
    k8s_sim.submit_pod(2000, 6000, 2000, 6000, 100, constant(2000), constant(6000), 1000);
    k8s_sim.step_for_duration(1_000_000);
    assert_ne!(k8s_sim.working_nodes().len(), 0);
    assert_ne!(k8s_sim.cpu_allocated_load_rate(), 0);
    assert_ne!(k8s_sim.memory_allocated_load_rate(), 0);
}

#[test]
fn test_cluster_scale_down() {
    let mut k8s_sim = K8sSimulation::new(
        SimulationConfig::new(),
        SchedulerAlgorithm::Mrp(MRPAlgorithm::new()),
        cluster_autoscaler(),
        None,
        None,
    );
    let _node_id_1 = k8s_sim.add_node(20_000, 20_000);
    assert_ne!(k8s_sim.working_nodes().len(), 0);

    k8s_sim.step_for_duration(700_000);
    assert_eq!(k8s_sim.working_nodes().len(), 0);
    assert_eq!(k8s_sim.failed_nodes().len(), 0);
}

#[test]
fn test_pod_load_model() {
    let mut k8s_sim = get_default_simulation_with_mrp();
    let node_id = k8s_sim.add_node(20_000, 20_000);

    let pod_id = k8s_sim.submit_pod(
        4000,
        10_000,
        8000,
        20_000,
        100,
        LoadModel::Increase(IncreaseLoadModel::new(100_000, 4000, 10_000)),
        LoadModel::Increase(IncreaseLoadModel::new(100_000, 10_000, 30_000)),
        1000,
    );
    k8s_sim.step_for_duration(20_000);
    assert!(node(&k8s_sim, node_id).cpu_allocated < 8000);
    assert!(node(&k8s_sim, node_id).memory_allocated < 20_000);
    k8s_sim.step_for_duration(100_000);
    assert_eq!(node(&k8s_sim, node_id).cpu_allocated, 8000);
    assert_eq!(node(&k8s_sim, node_id).memory_allocated, 20_000);
    k8s_sim.remove_pod(pod_id);
    k8s_sim.step_for_duration(100_000);

    let pod_id = k8s_sim.submit_pod(
        4000,
        10_000,
        8000,
        20_000,
        100,
        LoadModel::Decrease(DecreaseLoadModel::new(100_000, 8000, 2000)),
        LoadModel::Decrease(DecreaseLoadModel::new(100_000, 20_000, 0)),
        1000,
    );
    k8s_sim.step_for_duration(20_000);
    assert!(node(&k8s_sim, node_id).cpu_allocated > 4000);
    assert!(node(&k8s_sim, node_id).memory_allocated > 10_000);
    k8s_sim.step_for_duration(100_000);
    assert_eq!(node(&k8s_sim, node_id).cpu_allocated, 4000);
    assert_eq!(node(&k8s_sim, node_id).memory_allocated, 10_000);
    k8s_sim.remove_pod(pod_id);
    k8s_sim.step_for_duration(100_000);

    assert_eq!(node(&k8s_sim, node_id).cpu_allocated, 0);
    assert_eq!(node(&k8s_sim, node_id).memory_allocated, 0);
}

#[test]
fn test_vertical_autoscaler() {
    let mut k8s_sim = K8sSimulation::new(
        SimulationConfig::new(),
        SchedulerAlgorithm::Mrp(MRPAlgorithm::new()),
        None,
        Some(AutoVerticalAutoscalerAlgorithm::new(ControlledValuesMode::RequestsAndLimits)),
        None,
    );
    let node_id = k8s_sim.add_node(20_000, 20_000);
    let pod_id = k8s_sim.submit_pod(10_000, 10_000, 10_000, 10_000, 100, constant(1000), constant(1000), 1000);
    k8s_sim.step_for_duration(100_000);
    assert_eq!(node(&k8s_sim, node_id).cpu_allocated, 10_000);
    assert_eq!(node(&k8s_sim, node_id).memory_allocated, 10_000);

    k8s_sim.step_for_duration(40_000_000);
    assert!(node(&k8s_sim, node_id).cpu_allocated < 2000);
    assert!(node(&k8s_sim, node_id).memory_allocated < 2000);

    k8s_sim.remove_pod(pod_id);
    let pod_id = k8s_sim.submit_pod(10_000, 10_000, 15_000, 15_000, 100, constant(12_000), constant(12_000), 1000);
    k8s_sim.step_for_duration(100_000);
    assert_eq!(node(&k8s_sim, node_id).cpu_allocated, 12_000);
    assert_eq!(node(&k8s_sim, node_id).memory_allocated, 12_000);

    k8s_sim.step_for_duration(40_000_000);
    let n = node(&k8s_sim, node_id);
    let pod = n.pods.iter().find(|p| p.id == pod_id).unwrap();
    assert!(pod.requested_cpu > 10_000);
    assert!(pod.requested_memory > 10_000);
}

#[test]
fn test_create_deployment() {
    let mut k8s_sim = K8sSimulation::new(
        SimulationConfig::new(),
        SchedulerAlgorithm::Lrp(LRPAlgorithm::new()),
        None,
        None,
        None,
    );
    let node_id_1 = k8s_sim.add_node(5000, 20_000);
    let node_id_2 = k8s_sim.add_node(5000, 20_000);

    let _deployment_id = k8s_sim.submit_deployment(5000, 10_000, 5000, 10_000, 100, constant(5000), constant(10_000), 2, 1000);
    k8s_sim.step_for_duration(100_000);
    assert_eq!(node(&k8s_sim, node_id_1).cpu_allocated, 5000);
    assert_eq!(node(&k8s_sim, node_id_1).memory_allocated, 10_000);
    assert_eq!(node(&k8s_sim, node_id_2).cpu_allocated, 5000);
    assert_eq!(node(&k8s_sim, node_id_2).memory_allocated, 10_000);
}

#[test]
fn test_horizontal_autoscaler() {
    let horizontal_autoscaler = ResourcesHorizontalAutoscalerAlgorithm::new(
        ControlledResources::CPUOnly { cpu_utilization: Some(500) },
        300_000,
        300_000,
        1,
        10,
    );
    let mut k8s_sim = K8sSimulation::new(
        SimulationConfig::new(),
        SchedulerAlgorithm::Lrp(LRPAlgorithm::new()),
        None,
        None,
        Some(horizontal_autoscaler),
    );
    let node_id_1 = k8s_sim.add_node(5000, 20_000);
    let node_id_2 = k8s_sim.add_node(5000, 20_000);

    k8s_sim.submit_deployment(5000, 10_000, 5000, 10_000, 100, constant(5000), constant(10_000), 1, 1000);
    k8s_sim.step_for_duration(1_000_000);

    assert_eq!(node(&k8s_sim, node_id_1).cpu_allocated, 5000);
    assert_eq!(node(&k8s_sim, node_id_1).cpu_used, 2500);
    assert_eq!(node(&k8s_sim, node_id_2).cpu_allocated, 5000);
    assert_eq!(node(&k8s_sim, node_id_2).cpu_used, 2500);
}
