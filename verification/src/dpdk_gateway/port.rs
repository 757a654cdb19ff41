//! Bringing a port of the network card up.
//!
//! The port is configured, then its receive queues are set up, then its
//! transmit queues, and then it is started. The first step that fails ends
//! it.

use vstd::prelude::*;

verus! {

/// The step that failed, with the code it returned.
#[derive(Debug, Clone, Copy, PartialEq, Eq, Structural)]
pub enum PortError {
    ConfigureFailed(i32),
    RxQueueFailed(i32),
    TxQueueFailed(i32),
    StartFailed(i32),
}

/// How a port is set up.
#[derive(Debug, Clone, Copy, PartialEq, Eq, Structural)]
pub struct PortConfig {
    pub port_id: u16,
    pub n_rx_queues: u16,
    pub n_tx_queues: u16,
    pub rx_ring_size: u16,
    pub tx_ring_size: u16,
}

/// What is to be done next.
#[derive(Debug, Clone, Copy, PartialEq, Eq, Structural)]
pub enum PortStep {
    Configure,
    RxQueue(u16),
    TxQueue(u16),
    Start,
    /// Nothing: the port is up.
    Ready,
}

impl PortConfig {
    /// All steps, in their order.
    pub open spec fn plan(self) -> Seq<PortStep> {
        Seq::new(
            (3 + self.n_rx_queues + self.n_tx_queues) as nat,
            |k: int|
                if k == 0 {
                    PortStep::Configure
                } else if k <= self.n_rx_queues {
                    PortStep::RxQueue((k - 1) as u16)
                } else if k <= self.n_rx_queues + self.n_tx_queues {
                    PortStep::TxQueue((k - 1 - self.n_rx_queues) as u16)
                } else if k == 1 + self.n_rx_queues + self.n_tx_queues {
                    PortStep::Start
                } else {
                    PortStep::Ready
                },
        )
    }

    /// Where a step stands in the plan.
    pub open spec fn rank(self, step: PortStep) -> int {
        match step {
            PortStep::Configure => 0,
            PortStep::RxQueue(q) => 1 + q,
            PortStep::TxQueue(q) => 1 + self.n_rx_queues + q,
            PortStep::Start => 1 + self.n_rx_queues + self.n_tx_queues,
            PortStep::Ready => 2 + self.n_rx_queues + self.n_tx_queues,
        }
    }

    /// The step belongs to the plan.
    pub open spec fn has_step(self, step: PortStep) -> bool {
        match step {
            PortStep::RxQueue(q) => q < self.n_rx_queues,
            PortStep::TxQueue(q) => q < self.n_tx_queues,
            _ => true,
        }
    }
}

/// The error of a step that returned `rc`.
pub open spec fn failure(step: PortStep, rc: i32) -> PortError {
    match step {
        PortStep::Configure => PortError::ConfigureFailed(rc),
        PortStep::RxQueue(_) => PortError::RxQueueFailed(rc),
        PortStep::TxQueue(_) => PortError::TxQueueFailed(rc),
        _ => PortError::StartFailed(rc),
    }
}

/// What follows a step that returned `rc`: after zero the next step, after
/// anything else the end.
pub fn init_port(cfg: &PortConfig, step: PortStep, rc: i32) -> (r: Result<PortStep, PortError>)
    requires
        cfg.has_step(step),
        step != PortStep::Ready,
    ensures
        rc != 0 ==> r == Err::<PortStep, PortError>(failure(step, rc)),
        rc == 0 ==> r == Ok::<PortStep, PortError>(cfg.plan()[cfg.rank(step) + 1]),
        r matches Ok(next) ==> cfg.has_step(next) && cfg.rank(next) == cfg.rank(step) + 1,
{
    match step {
        PortStep::Configure => {
            if rc != 0 {
                return Err(PortError::ConfigureFailed(rc));
            }
            Ok(after_rx(cfg, 0))
        },
        PortStep::RxQueue(q) => {
            if rc != 0 {
                return Err(PortError::RxQueueFailed(rc));
            }
            Ok(after_rx(cfg, q + 1))
        },
        PortStep::TxQueue(q) => {
            if rc != 0 {
                return Err(PortError::TxQueueFailed(rc));
            }
            Ok(after_tx(cfg, q + 1))
        },
        _ => {
            if rc != 0 {
                return Err(PortError::StartFailed(rc));
            }
            Ok(PortStep::Ready)
        },
    }
}

/// The step with `done` receive queues set up.
fn after_rx(cfg: &PortConfig, done: u16) -> (step: PortStep)
    requires
        done <= cfg.n_rx_queues,
    ensures
        step == cfg.plan()[1 + done],
        cfg.has_step(step),
        cfg.rank(step) == 1 + done,
{
    if done < cfg.n_rx_queues {
        PortStep::RxQueue(done)
    } else {
        after_tx(cfg, 0)
    }
}

/// The step with all receive queues and `done` transmit queues set up.
fn after_tx(cfg: &PortConfig, done: u16) -> (step: PortStep)
    requires
        done <= cfg.n_tx_queues,
    ensures
        step == cfg.plan()[1 + cfg.n_rx_queues + done],
        cfg.has_step(step),
        cfg.rank(step) == 1 + cfg.n_rx_queues + done,
{
    if done < cfg.n_tx_queues {
        PortStep::TxQueue(done)
    } else {
        PortStep::Start
    }
}

/// Every queue is set up once: a step of the plan stands where its rank says
/// and nowhere else.
pub proof fn law_each_step_once(cfg: PortConfig, step: PortStep)
    requires
        cfg.has_step(step),
    ensures
        0 <= cfg.rank(step) < cfg.plan().len(),
        cfg.plan()[cfg.rank(step)] == step,
        forall|k: int|
            0 <= k < cfg.plan().len() && #[trigger] cfg.plan()[k] == step ==> k == cfg.rank(step),
{
}

/// A port is configured first. Then come its receive queues from the first to
/// the last, then its transmit queues, and then the start; after that it is
/// ready. A step that fails is named in the error, with its code.
pub proof fn law_order_of_the_steps(cfg: PortConfig, q: u16, rc: i32)
    ensures
        ({
            let rx = cfg.n_rx_queues as int;
            let tx = cfg.n_tx_queues as int;
            &&& cfg.plan().len() == rx + tx + 3
            &&& cfg.plan()[0] == PortStep::Configure
            &&& q < rx ==> cfg.plan()[1 + q] == PortStep::RxQueue(q)
            &&& q < tx ==> cfg.plan()[1 + rx + q] == PortStep::TxQueue(q)
            &&& cfg.plan()[1 + rx + tx] == PortStep::Start
            &&& cfg.plan()[2 + rx + tx] == PortStep::Ready
            &&& cfg.has_step(PortStep::RxQueue(q)) <==> q < rx
            &&& cfg.has_step(PortStep::TxQueue(q)) <==> q < tx
            &&& cfg.has_step(PortStep::Configure) && cfg.has_step(PortStep::Start)
        }),
        failure(PortStep::Configure, rc) == PortError::ConfigureFailed(rc),
        failure(PortStep::RxQueue(q), rc) == PortError::RxQueueFailed(rc),
        failure(PortStep::TxQueue(q), rc) == PortError::TxQueueFailed(rc),
        failure(PortStep::Start, rc) == PortError::StartFailed(rc),
{
}

} // verus!
