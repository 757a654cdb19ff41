//! The packet path.

use bytes::{BufMut, BytesMut};

use match_risk_engine::core_types::commands::Command;
use match_risk_engine::core_types::ids::{AccountId, ClientOrderId};
use match_risk_engine::dpdk_gateway::eal::{Eal, EalError};
use match_risk_engine::dpdk_gateway::mempool::{MbufPool, MempoolError};
use match_risk_engine::dpdk_gateway::port::{init_port, PortConfig, PortError, PortStep};
use match_risk_engine::dpdk_gateway::rx::{RxWorker, HEADER_SKIP};
use match_risk_engine::gateway::codec::Codec;
use match_risk_engine::gateway::session::{Session, SessionId, LANE_CAP, NEW_ORDER};
use match_risk_engine::ring_buffer::spsc::spsc_queue;

#[test]
fn return_codes() {
    assert_eq!(Eal::init(-3), Err(EalError::InitFailed(-3)));
    assert!(Eal::init(5).unwrap().started);
    assert_eq!(MbufPool::new(0), Err(MempoolError::CreateFailed));
    assert_eq!(MbufPool::new(64).unwrap().address, 64);
}

fn config() -> PortConfig {
    PortConfig {
        port_id: 0,
        n_rx_queues: 2,
        n_tx_queues: 1,
        rx_ring_size: 512,
        tx_ring_size: 512,
    }
}

#[test]
fn port_comes_up_step_by_step() {
    let cfg = config();
    let mut step = PortStep::Configure;
    let mut seen = Vec::new();
    while step != PortStep::Ready {
        seen.push(step);
        step = init_port(&cfg, step, 0).unwrap();
    }
    assert_eq!(
        seen,
        vec![
            PortStep::Configure,
            PortStep::RxQueue(0),
            PortStep::RxQueue(1),
            PortStep::TxQueue(0),
            PortStep::Start,
        ]
    );
}

#[test]
fn the_step_that_fails_is_named() {
    let cfg = config();
    assert_eq!(
        init_port(&cfg, PortStep::Configure, -1),
        Err(PortError::ConfigureFailed(-1))
    );
    assert_eq!(
        init_port(&cfg, PortStep::RxQueue(1), 2),
        Err(PortError::RxQueueFailed(2))
    );
    assert_eq!(
        init_port(&cfg, PortStep::TxQueue(0), 3),
        Err(PortError::TxQueueFailed(3))
    );
    assert_eq!(
        init_port(&cfg, PortStep::Start, 4),
        Err(PortError::StartFailed(4))
    );
}

#[test]
fn orders_come_out_of_packets() {
    let (producer, mut consumer, mut ring) = spsc_queue::<Command, LANE_CAP>();
    let session = Session::new(SessionId(1), AccountId(42), producer);
    let mut worker = RxWorker::new(0, 0, session);

    let mut payload = BytesMut::new();
    payload.put_u64_le(7);
    payload.put_u64_le(1);
    payload.put_u8(0);
    payload.put_u8(0);
    payload.put_i64_le(100);
    payload.put_u64_le(5);
    payload.put_u8(0);
    let mut wire = BytesMut::new();
    Codec.encode(NEW_ORDER, &payload, &mut wire).unwrap();
    let mut packet = vec![0xAAu8; HEADER_SKIP];
    packet.extend_from_slice(&wire);

    worker.handle_packet(&packet, &mut ring);
    match consumer.try_pop(&mut ring) {
        Some(Command::New(n)) => assert_eq!(n.client_order_id, ClientOrderId(7)),
        _ => panic!("expected an order"),
    }

    // Too short, cut off, and garbage: nothing happens.
    worker.handle_packet(&vec![0u8; HEADER_SKIP], &mut ring);
    worker.handle_packet(&packet[..packet.len() - 1].to_vec(), &mut ring);
    worker.handle_packet(&vec![0u8; 100], &mut ring);
    assert!(consumer.try_pop(&mut ring).is_none());
}
