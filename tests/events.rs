use stardust::events::{EventChannels, EventHandler, Handler, NUM_EVENT_PORTS};

struct Recorder {
    calls: Vec<(u32, Handler, usize)>,
}

impl EventHandler for Recorder {
    fn handle(&mut self, port: u32, handler: Handler, data: usize) {
        self.calls.push((port, handler, data));
    }
}

#[test]
fn new_table_is_masked_and_quiet() {
    let ev = EventChannels::new();
    assert_eq!(ev.actions.len(), NUM_EVENT_PORTS as usize);
    assert!(ev.mask.iter().all(|w| *w == u64::MAX));
    assert!(ev.pending.iter().all(|w| *w == 0));
    assert_eq!(ev.selector, 0);
}

#[test]
fn two_pending_ports_are_each_handled_once() {
    let mut ev = EventChannels::new();
    assert!(!ev.bind_event_channel(3, Handler::Bound(1), 30));
    assert!(!ev.bind_event_channel(130, Handler::Bound(2), 40));
    ev.raise(130);
    ev.raise(3);
    let mut rec = Recorder { calls: Vec::new() };
    let handled = ev.dispatch(&mut rec);
    assert_eq!(handled, vec![3, 130]);
    assert_eq!(rec.calls, vec![(3, Handler::Bound(1), 30), (130, Handler::Bound(2), 40)]);
    assert_eq!(ev.pending[0] & (1 << 3), 0);
    assert_eq!(ev.pending[2] & (1 << 2), 0);
    assert_eq!(ev.actions[3].count, 1);
    assert_eq!(ev.actions[130].count, 1);
    assert_eq!(ev.selector, 0);
    let mut again = Recorder { calls: Vec::new() };
    assert!(ev.dispatch(&mut again).is_empty());
    assert!(again.calls.is_empty());
}

#[test]
fn masked_port_stays_pending() {
    let mut ev = EventChannels::new();
    ev.bind_event_channel(5, Handler::Bound(9), 0);
    ev.mask_event_channel(5);
    ev.raise(5);
    let mut rec = Recorder { calls: Vec::new() };
    assert!(ev.dispatch(&mut rec).is_empty());
    assert_ne!(ev.pending[0] & (1 << 5), 0);
    ev.unmask_event_channel(5);
    ev.raise(5);
    assert_eq!(ev.dispatch(&mut rec), vec![5]);
    assert_eq!(ev.pending[0] & (1 << 5), 0);
}

#[test]
fn unbound_port_goes_to_the_default_handler() {
    let mut ev = EventChannels::new();
    ev.unmask_event_channel(1023);
    ev.raise(1023);
    let mut rec = Recorder { calls: Vec::new() };
    assert_eq!(ev.dispatch(&mut rec), vec![1023]);
    assert_eq!(rec.calls, vec![(1023, Handler::Default, 0)]);
}

#[test]
fn rebinding_reports_the_replacement() {
    let mut ev = EventChannels::new();
    assert!(!ev.bind_event_channel(7, Handler::Bound(1), 0));
    ev.raise(7);
    let mut rec = Recorder { calls: Vec::new() };
    ev.dispatch(&mut rec);
    assert_eq!(ev.actions[7].count, 1);
    assert!(ev.bind_event_channel(7, Handler::Bound(2), 5));
    assert_eq!(ev.actions[7].count, 0);
    assert_eq!(ev.actions[7].data, 5);
}

#[test]
fn clear_and_do_event() {
    let mut ev = EventChannels::new();
    ev.raise(64);
    assert_ne!(ev.pending[1] & 1, 0);
    ev.clear_event_channel(64);
    assert_eq!(ev.pending[1] & 1, 0);
    let a = ev.do_event(64);
    assert_eq!(a.count, 0);
    assert_eq!(ev.actions[64].count, 1);
}
