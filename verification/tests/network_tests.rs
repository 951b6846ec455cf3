use lvp::command::BINARY_COMMAND_LENGTH;
use lvp::decoder::{quantize, quantized_frame};
use lvp::frame::{Dimensions, Frame};
use lvp::network::{
    worker_step, Network, NetworkError, WorkerAction, WorkerEvent, WorkerState, CACHE_REFRESH_MILLIS,
    EMPTY_PIXEL,
};

#[test]
fn new_network_has_an_empty_cache() {
    let net = Network::new(Dimensions::new(10, 10), 4, 3, 2, true);
    assert_eq!(net.previous_frame(), &vec![EMPTY_PIXEL; 36]);
    assert_eq!(net.command_buffers().len(), 2);
    assert!(net.command_buffers().iter().all(|b| b.is_empty()));
    assert_eq!(net.canvas(), Dimensions::new(10, 10));
    // no stream configured still opens one
    assert_eq!(Network::new(Dimensions::new(1, 1), 1, 1, 0, true).command_buffers().len(), 1);
}

#[test]
fn quantized_first_frame_is_fully_painted() {
    let raw: Vec<u8> = (0..48u32).map(|v| (v * 53 % 256) as u8).collect();
    let f = quantized_frame(&raw, 4, 4);
    assert!(f.data.iter().all(|&v| v <= 250 && v % 10 == 0));
    let mut net = Network::new(Dimensions::new(8, 8), 4, 4, 2, true);
    net.send_frame(&f).unwrap();
    let sent: usize = net.command_buffers().iter().map(|b| b.len()).sum();
    assert_eq!(sent, 16 * BINARY_COMMAND_LENGTH);
    assert_eq!(net.previous_frame(), &f.data);
}

#[test]
fn refresh_is_due_after_two_seconds() {
    let mut net = Network::new(Dimensions::new(1, 1), 1, 1, 1, true);
    let f = Frame { data: vec![10, 10, 10], width: 1, height: 1 };
    net.send_frame(&f).unwrap();
    assert!(!net.refresh_if_due(CACHE_REFRESH_MILLIS - 1));
    assert_eq!(net.previous_frame(), &vec![10, 10, 10]);
    assert!(net.refresh_if_due(CACHE_REFRESH_MILLIS));
    assert_eq!(net.previous_frame(), &vec![EMPTY_PIXEL; 3]);
    // timed again from the refresh
    net.send_frame(&f).unwrap();
    assert!(!net.refresh_if_due(2 * CACHE_REFRESH_MILLIS - 1));
    assert!(net.refresh_if_due(2 * CACHE_REFRESH_MILLIS));
    // a new video starts the clock again
    net.start_video();
    assert!(!net.refresh_if_due(CACHE_REFRESH_MILLIS - 1));
    assert!(net.refresh_if_due(CACHE_REFRESH_MILLIS));
}

#[test]
fn video_frames_are_quantized_and_fully_painted() {
    let mut frame = Frame::new_empty(2, 1);
    frame.load_picture(&[255, 254, 251, 7, 0, 128], 2, 1);
    assert_eq!(frame.data, vec![250, 250, 250, 0, 0, 120]);
    let mut net = Network::new(Dimensions::new(2, 1), 2, 1, 1, true);
    net.send_frame(&frame).unwrap();
    assert_eq!(net.command_buffers()[0].len(), 2 * BINARY_COMMAND_LENGTH);
}

#[test]
fn reset_cache_forgets_what_was_sent() {
    let mut net = Network::new(Dimensions::new(1, 1), 1, 1, 1, true);
    let f = Frame { data: vec![10, 10, 10], width: 1, height: 1 };
    net.send_frame(&f).unwrap();
    net.send_frame(&f).unwrap();
    assert!(net.command_buffers()[0].is_empty());
    net.reset_cache();
    net.send_frame(&f).unwrap();
    assert_eq!(net.command_buffers()[0], vec![0x50, 0x42, 0, 0, 0, 0, 10, 10, 10, 255]);
}

#[test]
fn frame_larger_than_canvas_does_not_fit() {
    let mut net = Network::new(Dimensions::new(1, 1), 2, 2, 1, true);
    let f = Frame { data: vec![0; 12], width: 2, height: 2 };
    assert_eq!(net.send_frame(&f), Err(NetworkError::FrameDoesNotFit));
    assert!(net.command_buffers().is_empty());
    assert!(net.previous_frame().is_empty());
    // with no buffers left, every later frame fails too
    let small = Frame { data: vec![0; 3], width: 1, height: 1 };
    assert_eq!(net.send_frame(&small), Err(NetworkError::FrameDoesNotFit));
}

#[test]
fn quantize_steps_of_ten() {
    assert_eq!(quantize(255), 250);
    assert_eq!(quantize(249), 240);
    assert_eq!(quantize(9), 0);
    assert_eq!(quantize(10), 10);
}

#[test]
fn quantized_frame_keeps_dimensions() {
    let f = quantized_frame(&[1, 22, 255], 1, 1);
    assert_eq!(f.data, vec![0, 20, 250]);
    assert_eq!((f.width, f.height), (1, 1));
}

#[test]
fn worker_connects_writes_and_reconnects() {
    assert_eq!(
        worker_step(WorkerState::Disconnected, WorkerEvent::ConnectFailed),
        (WorkerState::Disconnected, WorkerAction::ConnectAfterDelay)
    );
    assert_eq!(
        worker_step(WorkerState::Disconnected, WorkerEvent::ConnectSucceeded),
        (WorkerState::Connected, WorkerAction::AwaitBuffers)
    );
    assert_eq!(
        worker_step(WorkerState::Connected, WorkerEvent::BuffersPublished(Some(10))),
        (WorkerState::Connected, WorkerAction::WriteBuffer)
    );
    assert_eq!(
        worker_step(WorkerState::Connected, WorkerEvent::BuffersPublished(Some(0))),
        (WorkerState::Connected, WorkerAction::AwaitBuffers)
    );
    assert_eq!(
        worker_step(WorkerState::Connected, WorkerEvent::BuffersPublished(None)),
        (WorkerState::Connected, WorkerAction::AwaitBuffers)
    );
    assert_eq!(
        worker_step(WorkerState::Connected, WorkerEvent::WriteSucceeded),
        (WorkerState::Connected, WorkerAction::AwaitBuffers)
    );
    assert_eq!(
        worker_step(WorkerState::Connected, WorkerEvent::WriteFailed),
        (WorkerState::Disconnected, WorkerAction::Connect)
    );
    assert_eq!(
        worker_step(WorkerState::Connected, WorkerEvent::ChannelClosed),
        (WorkerState::Stopped, WorkerAction::Stop)
    );
    assert_eq!(
        worker_step(WorkerState::Stopped, WorkerEvent::ConnectSucceeded),
        (WorkerState::Stopped, WorkerAction::Stop)
    );
}
