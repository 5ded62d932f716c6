use yarte::reactor::{App, Addr, Context, A};

#[derive(Default)]
struct Counter {
    seen: Vec<u32>,
    renders: u32,
    hydrated: bool,
}

impl App for Counter {
    type Message = u32;

    fn __render(&mut self) {
        self.renders += 1;
    }

    fn __hydrate(&mut self) {
        self.hydrated = true;
    }

    fn __dispatch(&mut self, msg: u32) {
        self.seen.push(msg);
    }
}

#[test]
fn run_hydrates_and_is_ready() {
    let a = A::run(Counter::default());
    assert!(a.ctx().is_ready());
    assert!(a.ctx().get().hydrated);
    assert_eq!(a.ctx().get().renders, 0);
}

#[test]
fn send_dispatches_in_order_and_renders() {
    let mut a = A::run(Counter::default());
    a.send(1);
    a.send(2);
    a.send(3);
    assert_eq!(a.ctx().get().seen, vec![1, 2, 3]);
    assert_eq!(a.ctx().get().renders, 3);
    assert_eq!(a.ctx().pending(), 0);
    assert!(a.ctx().is_ready());
}

#[test]
fn context_queues_until_ready() {
    let mut ctx = Context::new(Counter::default());
    assert!(!ctx.is_ready());
    ctx.push(4);
    ctx.push(5);
    assert_eq!(ctx.pending(), 2);
    assert_eq!(ctx.pop(), Some(4));
    ctx.ready(true);
    assert!(ctx.is_ready());
    assert_eq!(ctx.pop(), Some(5));
    assert_eq!(ctx.pop(), None);
    ctx.app().seen.push(9);
    assert_eq!(ctx.get().seen, vec![9]);
}

#[test]
fn new_address_is_not_ready() {
    let addr = Addr::new(Counter::default());
    let _ = addr;
}
