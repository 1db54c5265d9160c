use uart_console::serial_port::{
    SerialCommand, SerialEvent, SerialPortManager, SerialWorker, WorkerInput, WorkerPhase,
};
use uart_console::settings::{LineEnding, Settings};

fn data_of(ev: &SerialEvent) -> Option<String> {
    match ev {
        SerialEvent::Data(t) => Some(t.clone()),
        _ => None,
    }
}

#[test]
fn worker_start_then_data_then_disconnect() {
    let mut w = SerialWorker::new(LineEnding::LF);
    assert_eq!(w.phase, WorkerPhase::Starting);
    let st = w.step(WorkerInput::Started);
    assert!(matches!(st.events.as_slice(), [SerialEvent::Connected]));
    assert_eq!(w.phase, WorkerPhase::Running);
    let st = w.step(WorkerInput::Received(b"12".to_vec()));
    assert!(st.events.is_empty());
    let st = w.step(WorkerInput::Received(b"3\n45\n".to_vec()));
    let texts: Vec<Option<String>> = st.events.iter().map(data_of).collect();
    assert_eq!(texts, vec![Some("123".to_string()), Some("45".to_string())]);
    assert!(w.buffer.is_empty());
    let st = w.step(WorkerInput::ReadTimedOut);
    assert!(st.events.is_empty() && st.write.is_none());
    let st = w.step(WorkerInput::Command(SerialCommand::Disconnect));
    assert!(matches!(st.events.as_slice(), [SerialEvent::Disconnected]));
    assert!(w.is_stopped());
    let st = w.step(WorkerInput::Received(b"late\n".to_vec()));
    assert!(st.events.is_empty());
}

#[test]
fn worker_send_and_write_failure() {
    let mut w = SerialWorker::new(LineEnding::CrLf);
    w.step(WorkerInput::Started);
    let st = w.step(WorkerInput::Command(SerialCommand::Send(b"AT\r\n".to_vec())));
    assert_eq!(st.write, Some(b"AT\r\n".to_vec()));
    assert!(st.events.is_empty());
    let st = w.step(WorkerInput::WriteFailed("broken pipe".to_string()));
    match st.events.as_slice() {
        [SerialEvent::Error(m)] => assert_eq!(m, "Write error: broken pipe"),
        _ => panic!("expected one error event"),
    }
    assert!(!w.is_stopped());
}

#[test]
fn worker_read_failure_stops() {
    let mut w = SerialWorker::new(LineEnding::LF);
    w.step(WorkerInput::Started);
    let st = w.step(WorkerInput::ReadFailed("device gone".to_string()));
    match st.events.as_slice() {
        [SerialEvent::Error(m), SerialEvent::Disconnected] => assert_eq!(m, "Read error: device gone"),
        _ => panic!("expected error then disconnect"),
    }
    assert!(w.is_stopped());
}

#[test]
fn worker_closed_command_source_disconnects() {
    let mut w = SerialWorker::new(LineEnding::LF);
    w.step(WorkerInput::Started);
    let st = w.step(WorkerInput::CommandsClosed);
    assert!(matches!(st.events.as_slice(), [SerialEvent::Disconnected]));
    assert!(w.is_stopped());
}

#[test]
fn manager_connect_halves() {
    let mut m = SerialPortManager::new();
    assert!(!m.is_connected);
    let mut s = Settings::default();
    assert_eq!(m.prepare_connect(&s), Err("No port selected".to_string()));
    s.port_name = "/dev/ttyUSB0".to_string();
    assert_eq!(m.prepare_connect(&s), Ok(()));
    let (cmd_rx, ev_tx) = m.attach();
    assert!(m.is_connected);
    m.send(b"hi".to_vec());
    match cmd_rx.try_recv() {
        Ok(SerialCommand::Send(b)) => assert_eq!(b, b"hi".to_vec()),
        _ => panic!("expected a send command"),
    }
    ev_tx.send(SerialEvent::Connected).unwrap();
    ev_tx.send(SerialEvent::Data("x".to_string())).unwrap();
    let evs = m.poll_events();
    assert_eq!(evs.len(), 2);
    assert!(m.poll_events().is_empty());
    m.disconnect();
    assert!(!m.is_connected);
    assert!(m.cmd_tx.is_none());
    assert!(matches!(cmd_rx.try_recv(), Ok(SerialCommand::Disconnect)));
}

#[test]
fn missing_port_name_keeps_live_connection() {
    let mut m = SerialPortManager::new();
    let mut s = Settings::default();
    s.port_name = "COM1".to_string();
    assert_eq!(m.prepare_connect(&s), Ok(()));
    let (cmd_rx, _ev_tx) = m.attach();
    let blank = Settings::default();
    assert_eq!(m.prepare_connect(&blank), Err("No port selected".to_string()));
    assert!(m.is_connected);
    assert!(m.cmd_tx.is_some());
    assert!(cmd_rx.try_recv().is_err());
    assert_eq!(m.prepare_connect(&s), Ok(()));
    assert!(!m.is_connected);
    assert!(matches!(cmd_rx.try_recv(), Ok(SerialCommand::Disconnect)));
}
