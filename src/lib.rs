//! A discrete-event simulator of a container-orchestration control plane: nodes with
//! resource accounting, a scheduler with active, unschedulable and backoff queues, a
//! metrics server, and cluster, vertical and horizontal autoscalers, coupled through a
//! deterministic event queue.
//!
//! Amounts of CPU and memory are whole milli-units and times whole milliseconds.

pub mod load_model;
pub mod histogram;
pub mod pod;
pub mod deployment;
pub mod node;
pub mod scheduler_algorithm;
pub mod simulation_config;
pub mod cluster_autoscaler_algorithm;
pub mod scheduler;
pub mod metrics_server;
pub mod horizontal_autoscaler_algorithm;
pub mod vertical_autoscaler_algorithm;
pub mod events;
pub mod event_queue;
pub mod api_server;
pub mod simulation;
