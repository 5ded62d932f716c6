use vstd::prelude::*;

use std::collections::VecDeque;

verus! {

/// An application object: state plus behaviour, driven only by messages.
///
/// The methods are the hooks a generated application fills in; by default
/// they do nothing.
pub trait App: Sized {
    type Message;

    /// Brings the view up to date after a batch of messages.
    fn __render(&mut self) {
    }

    /// Links the application to its view, once, at start.
    fn __hydrate(&mut self) {
    }

    /// Applies one message.
    fn __dispatch(&mut self, _msg: Self::Message) {
    }
}

/// The inner state of a running application: the application, its queue of
/// pending messages, and whether it may start a dispatch cycle.
pub struct Context<I: App> {
    app: I,
    q: VecDeque<I::Message>,
    is_ready: bool,
    /// Every message dispatched so far, in order.
    log: Ghost<Seq<I::Message>>,
    /// For each render of the view, how many messages had been dispatched.
    marks: Ghost<Seq<nat>>,
    /// How many times the application was hydrated.
    hydrated: Ghost<nat>,
}

impl<I: App> Context<I> {
    pub closed spec fn queue(&self) -> Seq<I::Message> {
        self.q@
    }

    pub closed spec fn application(&self) -> I {
        self.app
    }

    pub closed spec fn ready_flag(&self) -> bool {
        self.is_ready
    }

    pub closed spec fn dispatched(&self) -> Seq<I::Message> {
        self.log@
    }

    pub closed spec fn render_marks(&self) -> Seq<nat> {
        self.marks@
    }

    /// How many times the view was rendered.
    pub open spec fn rendered(&self) -> nat {
        self.render_marks().len()
    }

    pub closed spec fn hydrations(&self) -> nat {
        self.hydrated@
    }

    pub fn new(app: I) -> (r: Self)
        ensures
            r.application() == app,
            r.hydrations() == 0,
            r.queue() == Seq::<I::Message>::empty(),
            !r.ready_flag(),
            r.dispatched() == Seq::<I::Message>::empty(),
            r.rendered() == 0,
    {
        Context {
            app,
            q: VecDeque::new(),
            is_ready: false,
            log: Ghost(Seq::empty()),
            marks: Ghost(Seq::empty()),
            hydrated: Ghost(0),
        }
    }

    /// The application.
    pub fn app(&mut self) -> (r: &mut I)
        ensures
            final(self).queue() == old(self).queue(),
            final(self).ready_flag() == old(self).ready_flag(),
            final(self).dispatched() == old(self).dispatched(),
            final(self).render_marks() == old(self).render_marks(),
            final(self).hydrations() == old(self).hydrations(),
    {
        &mut self.app
    }

    /// The application, to read.
    pub fn get(&self) -> (r: &I)
        ensures
            *r == self.application(),
    {
        &self.app
    }

    /// Number of messages waiting.
    pub fn pending(&self) -> (r: usize)
        ensures
            r == self.queue().len(),
    {
        self.q.len()
    }

    /// Sets whether a dispatch cycle may start.
    pub fn ready(&mut self, r: bool)
        ensures
            final(self).ready_flag() == r,
            final(self).queue() == old(self).queue(),
            final(self).dispatched() == old(self).dispatched(),
            final(self).render_marks() == old(self).render_marks(),
            final(self).hydrations() == old(self).hydrations(),
    {
        self.is_ready = r;
    }

    pub fn is_ready(&self) -> (r: bool)
        ensures
            r == self.ready_flag(),
    {
        self.is_ready
    }

    /// Enqueues a message.
    pub fn push(&mut self, msg: I::Message)
        ensures
            final(self).queue() == old(self).queue().push(msg),
            final(self).ready_flag() == old(self).ready_flag(),
            final(self).dispatched() == old(self).dispatched(),
            final(self).render_marks() == old(self).render_marks(),
            final(self).hydrations() == old(self).hydrations(),
    {
        self.q.push_back(msg);
    }

    /// Takes the oldest pending message.
    pub fn pop(&mut self) -> (r: Option<I::Message>)
        ensures
            old(self).queue().len() == 0 ==> r is None,
            old(self).queue().len() == 0 ==> final(self).queue() == old(self).queue(),
            old(self).queue().len() > 0 ==> r == Some(old(self).queue()[0]),
            old(self).queue().len() > 0 ==> final(self).queue() == old(self).queue().drop_first(),
            final(self).ready_flag() == old(self).ready_flag(),
            final(self).dispatched() == old(self).dispatched(),
            final(self).render_marks() == old(self).render_marks(),
            final(self).hydrations() == old(self).hydrations(),
    {
        self.q.pop_front()
    }

    /// Hands one message to the application.
    fn dispatch(&mut self, msg: I::Message)
        ensures
            final(self).queue() == old(self).queue(),
            final(self).ready_flag() == old(self).ready_flag(),
            final(self).dispatched() == old(self).dispatched().push(msg),
            final(self).render_marks() == old(self).render_marks(),
            final(self).hydrations() == old(self).hydrations(),
    {
        proof {
            self.log@ = self.log@.push(msg);
        }
        self.app.__dispatch(msg);
    }

    /// Hands the application its hydration hook.
    fn hydrate_app(&mut self)
        ensures
            final(self).queue() == old(self).queue(),
            final(self).ready_flag() == old(self).ready_flag(),
            final(self).dispatched() == old(self).dispatched(),
            final(self).render_marks() == old(self).render_marks(),
            final(self).hydrations() == old(self).hydrations() + 1,
    {
        proof {
            self.hydrated@ = self.hydrated@ + 1;
        }
        self.app.__hydrate();
    }

    /// Has the application render its view.
    fn render(&mut self)
        ensures
            final(self).queue() == old(self).queue(),
            final(self).ready_flag() == old(self).ready_flag(),
            final(self).dispatched() == old(self).dispatched(),
            final(self).render_marks() == old(self).render_marks().push(old(self).dispatched().len()),
            final(self).hydrations() == old(self).hydrations(),
    {
        proof {
            self.marks@ = self.marks@.push(self.log@.len());
        }
        self.app.__render();
    }
}

/// The address of a running application.
pub struct Addr<I: App>(pub(crate) Context<I>);

impl<I: App> Addr<I> {
    pub closed spec fn context(&self) -> Context<I> {
        self.0
    }

    /// A new address for `a`, not yet hydrated.
    pub fn new(a: I) -> (r: Addr<I>)
        ensures
            r.context().queue() == Seq::<I::Message>::empty(),
            !r.context().ready_flag(),
            r.context().dispatched() == Seq::<I::Message>::empty(),
            r.context().rendered() == 0,
            r.context().hydrations() == 0,
            r.context().application() == a,
    {
        Addr(Context::new(a))
    }
}

/// Handle on a running application; messages are sent through it.
pub struct A<I: App>(Addr<I>);

impl<I: App> A<I> {
    pub closed spec fn spec_ctx(&self) -> Context<I> {
        (self.0).0
    }

    /// Makes an address for `a`, hydrates it, and leaves it ready.
    pub fn run(a: I) -> (r: A<I>)
        ensures
            r.spec_ctx().queue() == Seq::<I::Message>::empty(),
            r.spec_ctx().ready_flag(),
            r.spec_ctx().dispatched() == Seq::<I::Message>::empty(),
            r.spec_ctx().rendered() == 0,
            r.spec_ctx().hydrations() == 1,
    {
        let mut addr = A(Addr::new(a));
        addr.hydrate();
        addr
    }

    /// Sends a message. It is always queued; when the application is ready,
    /// every pending message is then dispatched in order, the view is rendered
    /// after the batch, and the application is ready again.
    pub fn send(&mut self, msg: I::Message)
        ensures
            old(self).spec_ctx().ready_flag() ==> {
                &&& final(self).spec_ctx().queue() == Seq::<I::Message>::empty()
                &&& final(self).spec_ctx().ready_flag()
                &&& final(self).spec_ctx().dispatched() == old(self).spec_ctx().dispatched()
                    + old(self).spec_ctx().queue().push(msg)
                &&& final(self).spec_ctx().render_marks() == old(self).spec_ctx().render_marks().push(
                    final(self).spec_ctx().dispatched().len(),
                )
                &&& final(self).spec_ctx().hydrations() == old(self).spec_ctx().hydrations()
            },
            !old(self).spec_ctx().ready_flag() ==> {
                &&& final(self).spec_ctx().queue() == old(self).spec_ctx().queue().push(msg)
                &&& !final(self).spec_ctx().ready_flag()
                &&& final(self).spec_ctx().dispatched() == old(self).spec_ctx().dispatched()
                &&& final(self).spec_ctx().render_marks() == old(self).spec_ctx().render_marks()
                &&& final(self).spec_ctx().hydrations() == old(self).spec_ctx().hydrations()
            },
    {
        self.ctx_mut().push(msg);
        self.update();
    }

    fn hydrate(&mut self)
        ensures
            final(self).spec_ctx().queue() == old(self).spec_ctx().queue(),
            final(self).spec_ctx().ready_flag(),
            final(self).spec_ctx().dispatched() == old(self).spec_ctx().dispatched(),
            final(self).spec_ctx().render_marks() == old(self).spec_ctx().render_marks(),
            final(self).spec_ctx().hydrations() == old(self).spec_ctx().hydrations() + 1,
    {
        let ctx = self.ctx_mut();
        ctx.hydrate_app();
        ctx.ready(true);
    }

    /// Runs a dispatch cycle when ready: drains the queue, renders once if
    /// anything was dispatched.
    fn update(&mut self)
        ensures
            old(self).spec_ctx().ready_flag() ==> {
                &&& final(self).spec_ctx().queue() == Seq::<I::Message>::empty()
                &&& final(self).spec_ctx().ready_flag()
                &&& final(self).spec_ctx().dispatched() == old(self).spec_ctx().dispatched()
                    + old(self).spec_ctx().queue()
                &&& final(self).spec_ctx().render_marks() == if old(self).spec_ctx().queue().len() > 0 {
                    old(self).spec_ctx().render_marks().push(final(self).spec_ctx().dispatched().len())
                } else {
                    old(self).spec_ctx().render_marks()
                }
                &&& final(self).spec_ctx().hydrations() == old(self).spec_ctx().hydrations()
            },
            !old(self).spec_ctx().ready_flag() ==> final(self).spec_ctx() == old(self).spec_ctx(),
    {
        let ghost start = self.spec_ctx();
        let ctx = self.ctx_mut();
        if ctx.is_ready() {
            ctx.ready(false);
            let mut any = false;
            loop
                invariant
                    !ctx.ready_flag(),
                    start.queue() == start.queue().subrange(
                        0,
                        (start.queue().len() - ctx.queue().len()) as int,
                    ) + ctx.queue(),
                    ctx.queue().len() <= start.queue().len(),
                    ctx.dispatched() == start.dispatched() + start.queue().subrange(
                        0,
                        (start.queue().len() - ctx.queue().len()) as int,
                    ),
                    any <==> ctx.queue().len() < start.queue().len(),
                    ctx.render_marks() == start.render_marks(),
                    ctx.hydrations() == start.hydrations(),
                ensures
                    ctx.queue().len() == 0,
                decreases ctx.queue().len(),
            {
                let ghost before = ctx.queue();
                let ghost k = (start.queue().len() - before.len()) as int;
                match ctx.pop() {
                    Some(msg) => {
                        proof {
                            assert(start.queue()[k] == before[0]);
                            assert(start.queue().subrange(0, k + 1) =~= start.queue().subrange(
                                0,
                                k,
                            ).push(msg));
                            assert(start.queue() =~= start.queue().subrange(0, k + 1)
                                + ctx.queue());
                        }
                        ctx.dispatch(msg);
                        any = true;
                        proof {
                            assert(ctx.dispatched() =~= start.dispatched() + start.queue().subrange(
                                0,
                                k + 1,
                            ));
                        }
                    },
                    None => {
                        break ;
                    },
                }
            }
            proof {
                assert(ctx.queue().len() == 0);
                assert(start.queue().subrange(0, start.queue().len() as int) =~= start.queue());
            }
            if any {
                ctx.render();
            }
            ctx.ready(true);
        }
    }

    /// Ends the application: the handle, its address and the application
    /// are dropped together.
    pub fn dealloc(self) {
    }

    /// The context of the application.
    pub fn ctx(&self) -> (r: &Context<I>)
        ensures
            *r == self.spec_ctx(),
    {
        &(self.0).0
    }

    fn ctx_mut(&mut self) -> (r: &mut Context<I>)
        ensures
            *r == old(self).spec_ctx(),
            final(self).spec_ctx() == *final(r),
    {
        &mut (self.0).0
    }
}

} // verus!
