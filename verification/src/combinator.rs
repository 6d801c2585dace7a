//! Extensions made of extensions: one after the other, one instead of the other, a chain.
use vstd::prelude::*;

use crate::extensions::{
    AgentStateV, DecisionV, Extension, ExtensionError, ExtensionErrorV, HookCall, HookCallV, HookReturn,
    HookReturnV, NoopExtension, ToolCallDecision,
};
use crate::json::{Json, JsonV};
use crate::providers::{StreamResponse, StreamResponseV};
use crate::text::views;
use crate::tools::ToolErrorV;
use crate::types::{copy_opt, text_message, Message, MessageV, Request, ToolResultV};

verus! {

/// What the next extension of a chain is asked once one has answered `ret` to `call`: the
/// same point, about what the answer holds. After an error or a denial nobody is asked.
pub open spec fn passed_on(call: HookCallV, ret: HookReturnV) -> Option<HookCallV> {
    match (call, ret) {
        (HookCallV::AgentStart(_), HookReturnV::State(Ok(s))) => Some(HookCallV::AgentStart(s)),
        (HookCallV::AgentEnd(_), HookReturnV::State(Ok(s))) => Some(HookCallV::AgentEnd(s)),
        (HookCallV::TurnStart(_), HookReturnV::State(Ok(s))) => Some(HookCallV::TurnStart(s)),
        (HookCallV::TurnEnd(_), HookReturnV::State(Ok(s))) => Some(HookCallV::TurnEnd(s)),
        (HookCallV::MessageStart(_), HookReturnV::Messages(Ok(m))) => Some(
            HookCallV::MessageStart(m),
        ),
        (HookCallV::MessageUpdate(r), HookReturnV::Seen(Ok(_))) => Some(
            HookCallV::MessageUpdate(r),
        ),
        (HookCallV::MessageEnd(r), HookReturnV::Seen(Ok(_))) => Some(HookCallV::MessageEnd(r)),
        (
            HookCallV::ToolStart { id, name, arguments },
            HookReturnV::Decision(Ok(DecisionV::Allow)),
        ) => Some(HookCallV::ToolStart { id, name, arguments }),
        (HookCallV::ToolEnd { id, result: _ }, HookReturnV::Tool(Ok(result))) => Some(
            HookCallV::ToolEnd { id, result },
        ),
        _ => None,
    }
}

/// The point that was called, with what is needed to call the next extension at it.
enum Point {
    AgentStart,
    AgentEnd,
    TurnStart,
    TurnEnd,
    MessageStart,
    MessageUpdate(StreamResponse),
    MessageEnd(StreamResponse),
    ToolStart { id: String, name: String, arguments: Json },
    ToolEnd { id: String },
}

/// Whether the point is that of the call.
spec fn point_of(point: Point, call: HookCallV) -> bool {
    match (point, call) {
        (Point::AgentStart, HookCallV::AgentStart(_)) => true,
        (Point::AgentEnd, HookCallV::AgentEnd(_)) => true,
        (Point::TurnStart, HookCallV::TurnStart(_)) => true,
        (Point::TurnEnd, HookCallV::TurnEnd(_)) => true,
        (Point::MessageStart, HookCallV::MessageStart(_)) => true,
        (Point::MessageUpdate(a), HookCallV::MessageUpdate(b)) => a@ == b,
        (Point::MessageEnd(a), HookCallV::MessageEnd(b)) => a@ == b,
        (
            Point::ToolStart { id, name, arguments },
            HookCallV::ToolStart { id: i, name: n, arguments: a },
        ) => id@ == i && name@ == n && arguments@ == a,
        (Point::ToolEnd { id }, HookCallV::ToolEnd { id: i, result: _ }) => id@ == i,
        _ => false,
    }
}

/// The point of a call.
fn point(call: &HookCall) -> (r: Point)
    ensures
        point_of(r, call@),
{
    match call {
        HookCall::AgentStart(_) => Point::AgentStart,
        HookCall::AgentEnd(_) => Point::AgentEnd,
        HookCall::TurnStart(_) => Point::TurnStart,
        HookCall::TurnEnd(_) => Point::TurnEnd,
        HookCall::MessageStart(_) => Point::MessageStart,
        HookCall::MessageUpdate(r) => Point::MessageUpdate(r.clone()),
        HookCall::MessageEnd(r) => Point::MessageEnd(r.clone()),
        HookCall::ToolStart { id, name, arguments } => Point::ToolStart {
            id: id.clone(),
            name: name.clone(),
            arguments: arguments.clone(),
        },
        HookCall::ToolEnd { id, result: _ } => Point::ToolEnd { id: id.clone() },
    }
}

/// What to do once an extension of a chain has answered.
enum Onward {
    /// Ask the next one.
    Ask(HookCall),
    /// This is the answer of the chain.
    Return(HookReturn),
}

/// What to do once an extension of a chain has answered `ret` at the point.
fn onward(point: Point, ret: HookReturn, Ghost(call): Ghost<HookCallV>) -> (r: Onward)
    requires
        point_of(point, call),
        ret@.answers(call),
    ensures
        match r {
            Onward::Ask(next) => passed_on(call, ret@) == Some(next@),
            Onward::Return(same) => passed_on(call, ret@) is None && same@ == ret@,
        },
{
    match (point, ret) {
        (Point::AgentStart, HookReturn::State(Ok(s))) => Onward::Ask(HookCall::AgentStart(s)),
        (Point::AgentEnd, HookReturn::State(Ok(s))) => Onward::Ask(HookCall::AgentEnd(s)),
        (Point::TurnStart, HookReturn::State(Ok(s))) => Onward::Ask(HookCall::TurnStart(s)),
        (Point::TurnEnd, HookReturn::State(Ok(s))) => Onward::Ask(HookCall::TurnEnd(s)),
        (Point::MessageStart, HookReturn::Messages(Ok(m))) => Onward::Ask(
            HookCall::MessageStart(m),
        ),
        (Point::MessageUpdate(r), HookReturn::Seen(Ok(_))) => Onward::Ask(
            HookCall::MessageUpdate(r),
        ),
        (Point::MessageEnd(r), HookReturn::Seen(Ok(_))) => Onward::Ask(HookCall::MessageEnd(r)),
        (
            Point::ToolStart { id, name, arguments },
            HookReturn::Decision(Ok(ToolCallDecision::Allow)),
        ) => Onward::Ask(HookCall::ToolStart { id, name, arguments }),
        (Point::ToolEnd { id }, HookReturn::Tool(Ok(result))) => Onward::Ask(
            HookCall::ToolEnd { id, result },
        ),
        (_, ret) => Onward::Return(ret),
    }
}

/// Two extensions, one after the other: what the first answers is what the second is asked
/// about. The second is not asked once the first fails or denies.
pub struct And<A, B> {
    pub a: A,
    pub b: B,
}

impl<A: Extension, B: Extension> And<A, B> {
    /// The two, in this order.
    pub fn new(a: A, b: B) -> (r: Self)
        ensures
            r == (And { a, b }),
    {
        And { a, b }
    }
}

/// How two extensions answer one after the other.
pub open spec fn and_steps<A: Extension, B: Extension>(
    pre: And<A, B>,
    call: HookCallV,
    post: And<A, B>,
    ret: HookReturnV,
    first: HookReturnV,
) -> bool {
    &&& A::steps(pre.a, call, post.a, first)
    &&& first.answers(call)
    &&& ret.answers(call)
    &&& match passed_on(call, first) {
        Some(next) => B::steps(pre.b, next, post.b, ret),
        None => post.b == pre.b && ret == first,
    }
}

impl<A: Extension, B: Extension> Extension for And<A, B> {
    open spec fn steps(pre: Self, call: HookCallV, post: Self, ret: HookReturnV) -> bool {
        exists|first: HookReturnV| #[trigger] and_steps(pre, call, post, ret, first)
    }

    open spec fn called(&self) -> Seq<char> {
        "and"@
    }

    fn name(&self) -> String {
        "and".to_owned()
    }

    fn handle(&mut self, call: HookCall) -> (ret: HookReturn) {
        let ghost asked = call@;
        let at = point(&call);
        let first = self.a.handle(call);
        let ghost seen = first@;
        match onward(at, first, Ghost(asked)) {
            Onward::Ask(next) => {
                let ret = self.b.handle(next);
                assert(and_steps(*old(self), asked, *self, ret@, seen));
                ret
            },
            Onward::Return(ret) => {
                assert(and_steps(*old(self), asked, *self, ret@, seen));
                ret
            },
        }
    }
}

/// Whether an answer calls for the second of two alternatives: the first failed, or it
/// denied a tool call.
pub open spec fn falls_back(ret: HookReturnV) -> bool {
    match ret {
        HookReturnV::Decision(r) => r is Err || r matches Ok(DecisionV::Deny(_)),
        other => other.is_error(),
    }
}

/// Two alternatives: the second answers, about what the first was asked, where the first
/// fails or denies.
pub struct Or<A, B> {
    pub a: A,
    pub b: B,
}

impl<A: Extension, B: Extension> Or<A, B> {
    /// The two, in this order.
    pub fn new(a: A, b: B) -> (r: Self)
        ensures
            r == (Or { a, b }),
    {
        Or { a, b }
    }
}

/// How two alternatives answer.
pub open spec fn or_steps<A: Extension, B: Extension>(
    pre: Or<A, B>,
    call: HookCallV,
    post: Or<A, B>,
    ret: HookReturnV,
    first: HookReturnV,
) -> bool {
    &&& A::steps(pre.a, call, post.a, first)
    &&& first.answers(call)
    &&& ret.answers(call)
    &&& if falls_back(first) {
        B::steps(pre.b, call, post.b, ret)
    } else {
        post.b == pre.b && ret == first
    }
}

/// Whether an answer calls for the second of two alternatives.
fn wants_fallback(ret: &HookReturn) -> (r: bool)
    ensures
        r == falls_back(ret@),
{
    match ret {
        HookReturn::State(Err(_)) => true,
        HookReturn::Messages(Err(_)) => true,
        HookReturn::Seen(Err(_)) => true,
        HookReturn::Decision(Err(_)) => true,
        HookReturn::Decision(Ok(ToolCallDecision::Deny(_))) => true,
        HookReturn::Tool(Err(_)) => true,
        _ => false,
    }
}

impl<A: Extension, B: Extension> Extension for Or<A, B> {
    open spec fn steps(pre: Self, call: HookCallV, post: Self, ret: HookReturnV) -> bool {
        exists|first: HookReturnV| #[trigger] or_steps(pre, call, post, ret, first)
    }

    open spec fn called(&self) -> Seq<char> {
        "or"@
    }

    fn name(&self) -> String {
        "or".to_owned()
    }

    fn handle(&mut self, call: HookCall) -> (ret: HookReturn) {
        let ghost asked = call@;
        let first = self.a.handle(call.clone());
        let ghost seen = first@;
        if wants_fallback(&first) {
            let ret = self.b.handle(call);
            assert(or_steps(*old(self), asked, *self, ret@, seen));
            ret
        } else {
            assert(or_steps(*old(self), asked, *self, first@, seen));
            first
        }
    }
}

/// How a chain of extensions answers: each in turn, about what the one before it answered,
/// until one fails or denies. An empty chain changes nothing.
pub open spec fn chain_steps<E: Extension>(
    pre: Seq<E>,
    call: HookCallV,
    post: Seq<E>,
    ret: HookReturnV,
) -> bool
    decreases pre.len(),
{
    if pre.len() == 0 {
        post == pre && ret == call.unchanged()
    } else {
        post.len() == pre.len() && exists|first: HookReturnV|
            #![trigger E::steps(pre[0], call, post[0], first)]
            E::steps(pre[0], call, post[0], first) && first.answers(call) && match passed_on(
                call,
                first,
            ) {
                Some(next) => chain_steps(pre.skip(1), next, post.skip(1), ret),
                None => post.skip(1) == pre.skip(1) && ret == first,
            }
    }
}

/// A chain of extensions, asked in order.
pub struct Pipeline<E> {
    pub extensions: Vec<E>,
}

impl<E> View for Pipeline<E> {
    type V = Seq<E>;

    open spec fn view(&self) -> Seq<E> {
        self.extensions@
    }
}

impl<E: Extension> Pipeline<E> {
    /// The extensions, in this order.
    pub fn new(extensions: Vec<E>) -> (r: Self)
        ensures
            r@ == extensions@,
    {
        Pipeline { extensions }
    }
}

/// Asks the extensions from `from` on.
fn run_chain<E: Extension>(extensions: &mut Vec<E>, from: usize, call: HookCall) -> (ret:
    HookReturn)
    requires
        from <= old(extensions)@.len(),
    ensures
        final(extensions)@.len() == old(extensions)@.len(),
        final(extensions)@.take(from as int) == old(extensions)@.take(from as int),
        chain_steps(
            old(extensions)@.skip(from as int),
            call@,
            final(extensions)@.skip(from as int),
            ret@,
        ),
        ret@.answers(call@),
    decreases old(extensions)@.len() - from,
{
    let ghost before = extensions@;
    let ghost asked = call@;
    if from == extensions.len() {
        assert(before.skip(from as int).len() == 0);
        return call.unchanged();
    }
    let at = point(&call);
    let first = extensions[from].handle(call);
    let ghost seen = first@;
    let ghost middle = extensions@;
    let next = onward(at, first, Ghost(asked));
    match next {
        Onward::Ask(next) => {
            let ghost passed = next@;
            let ret = run_chain(extensions, from + 1, next);
            proof {
                let after = extensions@;
                assert(after.take(from as int) =~= before.take(from as int)) by {
                    assert forall|i: int| 0 <= i < from implies after[i] == before[i] by {
                        assert(after.take(from + 1)[i] == middle.take(from + 1)[i]);
                    }
                }
                assert(after[from as int] == middle[from as int]) by {
                    assert(after.take(from + 1)[from as int] == middle.take(from + 1)[from as int]);
                }
                assert(before.skip(from as int)[0] == before[from as int]);
                assert(after.skip(from as int)[0] == after[from as int]);
                assert(before.skip(from as int).skip(1) =~= middle.skip(from + 1));
                assert(after.skip(from as int).skip(1) =~= after.skip(from + 1));
                assert(E::steps(
                    before.skip(from as int)[0],
                    asked,
                    after.skip(from as int)[0],
                    seen,
                ));
            }
            ret
        },
        Onward::Return(ret) => {
            proof {
                let after = extensions@;
                assert(after.take(from as int) =~= before.take(from as int));
                assert(before.skip(from as int)[0] == before[from as int]);
                assert(after.skip(from as int)[0] == after[from as int]);
                assert(before.skip(from as int).skip(1) =~= after.skip(from as int).skip(1));
                assert(E::steps(
                    before.skip(from as int)[0],
                    asked,
                    after.skip(from as int)[0],
                    seen,
                ));
            }
            ret
        },
    }
}

impl<E: Extension> Extension for Pipeline<E> {
    open spec fn steps(pre: Self, call: HookCallV, post: Self, ret: HookReturnV) -> bool {
        chain_steps(pre@, call, post@, ret)
    }

    open spec fn called(&self) -> Seq<char> {
        "pipeline"@
    }

    fn name(&self) -> String {
        "pipeline".to_owned()
    }

    fn handle(&mut self, call: HookCall) -> (ret: HookReturn) {
        let ret = run_chain(&mut self.extensions, 0, call);
        proof {
            assert(old(self)@.skip(0) =~= old(self)@);
            assert(self@.skip(0) =~= self@);
        }
        ret
    }
}

/// The extension that an agent runs for a list of extensions.
pub struct Composed<E> {
    pub chain: Pipeline<E>,
}

impl<E: Extension> Extension for Composed<E> {
    open spec fn steps(pre: Self, call: HookCallV, post: Self, ret: HookReturnV) -> bool {
        chain_steps(pre.chain@, call, post.chain@, ret)
    }

    open spec fn called(&self) -> Seq<char> {
        if self.chain@.len() == 0 {
            "noop"@
        } else if self.chain@.len() == 1 {
            self.chain@[0].called()
        } else {
            "and"@
        }
    }

    fn name(&self) -> String {
        if self.chain.extensions.len() == 0 {
            "noop".to_owned()
        } else if self.chain.extensions.len() == 1 {
            self.chain.extensions[0].name()
        } else {
            "and".to_owned()
        }
    }

    fn handle(&mut self, call: HookCall) -> (ret: HookReturn) {
        self.chain.handle(call)
    }
}

/// The extension that an agent runs for a list of extensions: the first one is asked first
/// and gates the rest, and an empty list changes nothing.
pub fn compose<E: Extension>(extensions: Vec<E>) -> (r: Composed<E>)
    ensures
        r.chain@ == extensions@,
{
    Composed { chain: Pipeline::new(extensions) }
}

/// Asking on at the same point twice is asking on once: an answer to what was passed on is
/// an answer to the call itself.
proof fn lemma_passed_on(call: HookCallV, first: HookReturnV, second: HookReturnV)
    requires
        first.answers(call),
        passed_on(call, first) is Some,
    ensures
        second.answers(passed_on(call, first)->0) == second.answers(call),
        passed_on(passed_on(call, first)->0, second) == passed_on(call, second),
        passed_on(call, first) == passed_on(call, passed_on(call, first)->0.unchanged()),
        passed_on(call, call.unchanged()) == Some(call),
{
}

/// Chaining is associative: `And(a, And(b, c))` and `And(And(a, b), c)` can do the same.
pub proof fn law_and_is_associative<A: Extension, B: Extension, C: Extension>(
    pre: And<A, And<B, C>>,
    call: HookCallV,
    post: And<A, And<B, C>>,
    ret: HookReturnV,
)
    ensures
        And::<A, And<B, C>>::steps(pre, call, post, ret) <==> And::<And<A, B>, C>::steps(
            (And { a: And { a: pre.a, b: pre.b.a }, b: pre.b.b }),
            call,
            (And { a: And { a: post.a, b: post.b.a }, b: post.b.b }),
            ret,
        ),
{
    let left_pre = And { a: And { a: pre.a, b: pre.b.a }, b: pre.b.b };
    let left_post = And { a: And { a: post.a, b: post.b.a }, b: post.b.b };
    if And::<A, And<B, C>>::steps(pre, call, post, ret) {
        let first = choose|first: HookReturnV| #[trigger] and_steps(pre, call, post, ret, first);
        match passed_on(call, first) {
            None => {
                assert(and_steps(left_pre.a, call, left_post.a, first, first));
                assert(and_steps(left_pre, call, left_post, ret, first));
            },
            Some(next) => {
                let second = choose|second: HookReturnV|
                    #[trigger] and_steps(pre.b, next, post.b, ret, second);
                lemma_passed_on(call, first, second);
                assert(and_steps(left_pre.a, call, left_post.a, second, first));
                assert(and_steps(left_pre, call, left_post, ret, second));
            },
        }
    }
    if And::<And<A, B>, C>::steps(left_pre, call, left_post, ret) {
        let second = choose|second: HookReturnV|
            #[trigger] and_steps(left_pre, call, left_post, ret, second);
        let first = choose|first: HookReturnV|
            #[trigger] and_steps(left_pre.a, call, left_post.a, second, first);
        match passed_on(call, first) {
            None => {
                assert(and_steps(pre, call, post, ret, first));
            },
            Some(next) => {
                lemma_passed_on(call, first, second);
                assert(and_steps(pre.b, next, post.b, ret, second));
                assert(and_steps(pre, call, post, ret, first));
            },
        }
    }
}

/// An extension that changes nothing changes nothing in a chain either.
pub proof fn law_noop_is_identity<X: Extension>(
    pre: X,
    call: HookCallV,
    post: X,
    ret: HookReturnV,
)
    requires
        ret.answers(call),
    ensures
        X::steps(pre, call, post, ret) <==> And::<NoopExtension, X>::steps(
            (And { a: NoopExtension, b: pre }),
            call,
            (And { a: NoopExtension, b: post }),
            ret,
        ),
{
    let wrapped_pre = And { a: NoopExtension, b: pre };
    let wrapped_post = And { a: NoopExtension, b: post };
    let first = call.unchanged();
    if X::steps(pre, call, post, ret) {
        assert(and_steps(wrapped_pre, call, wrapped_post, ret, first));
    }
    if And::<NoopExtension, X>::steps(wrapped_pre, call, wrapped_post, ret) {
        let seen = choose|seen: HookReturnV|
            #[trigger] and_steps(wrapped_pre, call, wrapped_post, ret, seen);
        assert(seen == first);
        assert(passed_on(call, first) == Some(call));
    }
}

/// A failure of the first of two chained extensions is the failure of both: the second is
/// neither asked nor changed.
pub proof fn law_and_stops_at_failure<A: Extension, B: Extension>(
    pre: And<A, B>,
    call: HookCallV,
    post: And<A, B>,
    ret: HookReturnV,
)
    requires
        And::<A, B>::steps(pre, call, post, ret),
        forall|first: HookReturnV|
            #[trigger] A::steps(pre.a, call, post.a, first) ==> first.is_error(),
    ensures
        ret.is_error(),
        post.b == pre.b,
        A::steps(pre.a, call, post.a, ret),
{
    let first = choose|first: HookReturnV| #[trigger] and_steps(pre, call, post, ret, first);
    assert(A::steps(pre.a, call, post.a, first));
    assert(passed_on(call, first) is None);
}

/// What was passed on, answered without a change, is the answer that was passed on.
proof fn lemma_passed_on_unchanged(call: HookCallV, ret: HookReturnV)
    requires
        ret.answers(call),
        passed_on(call, ret) is Some,
    ensures
        (passed_on(call, ret)->0).unchanged() == ret,
{
    match ret {
        HookReturnV::Seen(r) => {
            assert(r->Ok_0 == ());
        },
        _ => {},
    }
}

/// A chain of one extension is that extension.
pub proof fn law_chain_of_one<E: Extension>(
    pre: E,
    call: HookCallV,
    post: E,
    ret: HookReturnV,
)
    requires
        ret.answers(call),
    ensures
        chain_steps(seq![pre], call, seq![post], ret) <==> E::steps(pre, call, post, ret),
{
    reveal_with_fuel(chain_steps, 3);
    let one = seq![pre];
    let two = seq![post];
    assert(one.skip(1) =~= Seq::<E>::empty());
    assert(two.skip(1) =~= Seq::<E>::empty());
    assert(one[0] == pre && two[0] == post);
    if E::steps(pre, call, post, ret) {
        assert(E::steps(one[0], call, two[0], ret));
        match passed_on(call, ret) {
            Some(next) => {
                lemma_passed_on_unchanged(call, ret);
                assert(chain_steps(one.skip(1), next, two.skip(1), ret));
            },
            None => {},
        }
    }
    if chain_steps(one, call, two, ret) {
        let first = choose|first: HookReturnV|
            #![trigger E::steps(one[0], call, two[0], first)]
            E::steps(one[0], call, two[0], first) && first.answers(call) && match passed_on(
                call,
                first,
            ) {
                Some(next) => chain_steps(one.skip(1), next, two.skip(1), ret),
                None => two.skip(1) == one.skip(1) && ret == first,
            };
        if passed_on(call, first) is Some {
            lemma_passed_on_unchanged(call, first);
        }
        assert(E::steps(pre, call, post, first));
    }
}

/// A chain of two extensions is the first one followed by the second.
pub proof fn law_chain_is_and<E: Extension>(
    pre: And<E, E>,
    call: HookCallV,
    post: And<E, E>,
    ret: HookReturnV,
)
    requires
        ret.answers(call),
    ensures
        chain_steps(seq![pre.a, pre.b], call, seq![post.a, post.b], ret) <==> And::<E, E>::steps(
            pre,
            call,
            post,
            ret,
        ),
{
    let one = seq![pre.a, pre.b];
    let two = seq![post.a, post.b];
    assert(one.skip(1) =~= seq![pre.b]);
    assert(two.skip(1) =~= seq![post.b]);
    assert(one.skip(1) == two.skip(1) <==> pre.b == post.b) by {
        assert(one.skip(1)[0] == pre.b);
        assert(two.skip(1)[0] == post.b);
    }
    if And::<E, E>::steps(pre, call, post, ret) {
        let first = choose|first: HookReturnV| #[trigger] and_steps(pre, call, post, ret, first);
        assert(E::steps(one[0], call, two[0], first));
        match passed_on(call, first) {
            Some(next) => {
                lemma_passed_on(call, first, ret);
                law_chain_of_one(pre.b, next, post.b, ret);
            },
            None => {},
        }
    }
    if chain_steps(one, call, two, ret) {
        let first = choose|first: HookReturnV|
            #![trigger E::steps(one[0], call, two[0], first)]
            E::steps(one[0], call, two[0], first) && first.answers(call) && match passed_on(
                call,
                first,
            ) {
                Some(next) => chain_steps(one.skip(1), next, two.skip(1), ret),
                None => two.skip(1) == one.skip(1) && ret == first,
            };
        match passed_on(call, first) {
            Some(next) => {
                lemma_passed_on(call, first, ret);
                law_chain_of_one(pre.b, next, post.b, ret);
            },
            None => {},
        }
        assert(and_steps(pre, call, post, ret, first));
    }
}

/// An alternative is taken on what was asked, and only where the first extension failed or
/// denied: where it did neither, its answer stands and the second one is not asked.
pub proof fn law_or_keeps_first_answer<A: Extension, B: Extension>(
    pre: Or<A, B>,
    call: HookCallV,
    post: Or<A, B>,
    ret: HookReturnV,
)
    requires
        Or::<A, B>::steps(pre, call, post, ret),
        forall|first: HookReturnV|
            #[trigger] A::steps(pre.a, call, post.a, first) ==> !falls_back(first),
    ensures
        A::steps(pre.a, call, post.a, ret),
        post.b == pre.b,
{
    let first = choose|first: HookReturnV| #[trigger] or_steps(pre, call, post, ret, first);
    assert(A::steps(pre.a, call, post.a, first));
}

/// Where the first of two alternatives fails or denies, the second one is asked what the first
/// was asked, and its answer is the answer.
pub proof fn law_or_falls_back<A: Extension, B: Extension>(
    pre: Or<A, B>,
    call: HookCallV,
    post: Or<A, B>,
    ret: HookReturnV,
)
    requires
        Or::<A, B>::steps(pre, call, post, ret),
        forall|first: HookReturnV|
            #[trigger] A::steps(pre.a, call, post.a, first) ==> falls_back(first),
    ensures
        B::steps(pre.b, call, post.b, ret),
{
    let first = choose|first: HookReturnV| #[trigger] or_steps(pre, call, post, ret, first);
    assert(A::steps(pre.a, call, post.a, first));
}

/// Two alternatives fail only where the second one fails.
pub proof fn law_or_fails_with_second<A: Extension, B: Extension>(
    pre: Or<A, B>,
    call: HookCallV,
    post: Or<A, B>,
    ret: HookReturnV,
)
    requires
        Or::<A, B>::steps(pre, call, post, ret),
        ret.is_error(),
    ensures
        B::steps(pre.b, call, post.b, ret),
{
    let first = choose|first: HookReturnV| #[trigger] or_steps(pre, call, post, ret, first);
    assert(falls_back(first));
}

/// An extension that carries a label: it adds a message with its label to what a provider
/// is about to see, fails everywhere it can, or denies every tool call.
pub struct LabelExt {
    pub label: String,
    pub should_fail: bool,
    pub deny_reason: Option<String>,
    /// The points at which it was called, in order.
    pub calls: Vec<String>,
}

impl LabelExt {
    /// One that fails nowhere and denies nothing.
    pub fn ok(label: &str) -> (r: Self)
        ensures
            r.label@ == label@,
            !r.should_fail,
            r.deny_reason is None,
            r.calls@.len() == 0,
    {
        LabelExt {
            label: label.to_owned(),
            should_fail: false,
            deny_reason: None,
            calls: Vec::new(),
        }
    }

    /// One that fails.
    pub fn fail(label: &str) -> (r: Self)
        ensures
            r.label@ == label@,
            r.should_fail,
            r.deny_reason is None,
            r.calls@.len() == 0,
    {
        LabelExt { label: label.to_owned(), should_fail: true, deny_reason: None, calls: Vec::new() }
    }

    /// One that denies tool calls for the reason.
    pub fn deny(label: &str, reason: &str) -> (r: Self)
        ensures
            r.label@ == label@,
            !r.should_fail,
            r.deny_reason matches Some(t) && t@ == reason@,
            r.calls@.len() == 0,
    {
        LabelExt {
            label: label.to_owned(),
            should_fail: false,
            deny_reason: Some(reason.to_owned()),
            calls: Vec::new(),
        }
    }

    /// Notes that a point was reached.
    fn record(&mut self, method: &str)
        ensures
            views(final(self).calls@) == views(old(self).calls@).push(method@),
            final(self).label == old(self).label,
            final(self).should_fail == old(self).should_fail,
            final(self).deny_reason == old(self).deny_reason,
    {
        let ghost before = views(self.calls@);
        self.calls.push(method.to_owned());
        assert(views(self.calls@) =~= before.push(method@));
    }

    /// The failure of the extension.
    pub open spec fn failure(self) -> ExtensionErrorV {
        ExtensionErrorV::ExtensionFailed { name: self.label@, message: "fail"@ }
    }

    /// The failure of the extension.
    fn error(&self) -> (r: ExtensionError)
        ensures
            r@ == self.failure(),
    {
        ExtensionError::failed(self.label.as_str(), "fail")
    }

    /// What the extension answers.
    pub open spec fn answer(self, call: HookCallV) -> HookReturnV {
        match call {
            HookCallV::MessageStart(m) => HookReturnV::Messages(
                if self.should_fail {
                    Err(self.failure())
                } else {
                    Ok(m.push(text_message("user"@, self.label@)))
                },
            ),
            HookCallV::AgentStart(s) => HookReturnV::State(
                if self.should_fail {
                    Err(self.failure())
                } else {
                    Ok(s)
                },
            ),
            HookCallV::MessageUpdate(_) => HookReturnV::Seen(
                if self.should_fail {
                    Err(self.failure())
                } else {
                    Ok(())
                },
            ),
            HookCallV::ToolStart { .. } => HookReturnV::Decision(
                match self.deny_reason {
                    Some(reason) => Ok(DecisionV::Deny(reason@)),
                    None => Ok(DecisionV::Allow),
                },
            ),
            other => other.unchanged(),
        }
    }

    /// The points that are written down once the extension has been called.
    pub open spec fn recorded(self, call: HookCallV) -> Seq<Seq<char>> {
        match call {
            HookCallV::AgentStart(_) => views(self.calls@).push("on_agent_start"@),
            HookCallV::MessageUpdate(_) => views(self.calls@).push("on_message_update"@),
            HookCallV::MessageEnd(_) => views(self.calls@).push("on_message_end"@),
            HookCallV::ToolStart { .. } => views(self.calls@).push("on_tool_execution_start"@),
            _ => views(self.calls@),
        }
    }
}

impl Extension for LabelExt {
    open spec fn steps(pre: Self, call: HookCallV, post: Self, ret: HookReturnV) -> bool {
        &&& ret == pre.answer(call)
        &&& views(post.calls@) == pre.recorded(call)
        &&& post.label == pre.label
        &&& post.should_fail == pre.should_fail
        &&& post.deny_reason == pre.deny_reason
    }

    open spec fn called(&self) -> Seq<char> {
        self.label@
    }

    fn name(&self) -> String {
        self.label.clone()
    }

    fn handle(&mut self, call: HookCall) -> (ret: HookReturn) {
        match call {
            HookCall::MessageStart(messages) => {
                if self.should_fail {
                    return HookReturn::Messages(Err(self.error()));
                }
                let ghost before = views(messages@);
                let mut messages = messages;
                messages.push(Message::text("user", self.label.clone()));
                assert(views(messages@) =~= before.push(text_message("user"@, self.label@)));
                HookReturn::Messages(Ok(messages))
            },
            HookCall::AgentStart(state) => {
                self.record("on_agent_start");
                if self.should_fail {
                    return HookReturn::State(Err(self.error()));
                }
                HookReturn::State(Ok(state))
            },
            HookCall::ToolStart { .. } => {
                self.record("on_tool_execution_start");
                match copy_opt(&self.deny_reason) {
                    Some(reason) => HookReturn::Decision(Ok(ToolCallDecision::Deny(reason))),
                    None => HookReturn::Decision(Ok(ToolCallDecision::Allow)),
                }
            },
            HookCall::MessageUpdate(_) => {
                self.record("on_message_update");
                if self.should_fail {
                    return HookReturn::Seen(Err(self.error()));
                }
                HookReturn::Seen(Ok(()))
            },
            HookCall::MessageEnd(_) => {
                self.record("on_message_end");
                HookReturn::Seen(Ok(()))
            },
            other => other.unchanged(),
        }
    }
}

/// A request of one user message.
pub fn make_request(text: &str) -> (r: Request)
    ensures
        views(r.messages@) == seq![text_message("user"@, text@)],
        r.tools@.len() == 0,
{
    let mut messages: Vec<Message> = Vec::new();
    messages.push(Message::text("user", text.to_owned()));
    assert(views(messages@) =~= seq![text_message("user"@, text@)]);
    Request { messages, tools: Vec::new() }
}

/// A response that holds nothing yet.
pub fn make_response() -> (r: StreamResponse)
    ensures
        r@ == crate::providers::StreamResponseV::empty(),
{
    StreamResponse::new()
}

/// The next extension is asked about what the one before it answered, at the same point; where
/// the answer says only that something was seen, or that a call may run, about what was asked.
pub proof fn law_answers_are_passed_on(
    state: AgentStateV,
    answered: AgentStateV,
    messages: Seq<MessageV>,
    rendered: Seq<MessageV>,
    response: StreamResponseV,
    id: Seq<char>,
    name: Seq<char>,
    arguments: JsonV,
    result: Result<ToolResultV, ToolErrorV>,
    checked: Result<ToolResultV, ToolErrorV>,
)
    ensures
        passed_on(HookCallV::AgentStart(state), HookReturnV::State(Ok(answered))) == Some(
            HookCallV::AgentStart(answered),
        ),
        passed_on(HookCallV::AgentEnd(state), HookReturnV::State(Ok(answered))) == Some(
            HookCallV::AgentEnd(answered),
        ),
        passed_on(HookCallV::TurnStart(state), HookReturnV::State(Ok(answered))) == Some(
            HookCallV::TurnStart(answered),
        ),
        passed_on(HookCallV::TurnEnd(state), HookReturnV::State(Ok(answered))) == Some(
            HookCallV::TurnEnd(answered),
        ),
        passed_on(HookCallV::MessageStart(messages), HookReturnV::Messages(Ok(rendered))) == Some(
            HookCallV::MessageStart(rendered),
        ),
        passed_on(HookCallV::MessageUpdate(response), HookReturnV::Seen(Ok(()))) == Some(
            HookCallV::MessageUpdate(response),
        ),
        passed_on(HookCallV::MessageEnd(response), HookReturnV::Seen(Ok(()))) == Some(
            HookCallV::MessageEnd(response),
        ),
        passed_on(
            HookCallV::ToolStart { id, name, arguments },
            HookReturnV::Decision(Ok(DecisionV::Allow)),
        ) == Some(HookCallV::ToolStart { id, name, arguments }),
        passed_on(HookCallV::ToolEnd { id, result }, HookReturnV::Tool(Ok(checked))) == Some(
            HookCallV::ToolEnd { id, result: checked },
        ),
{
}

/// Nobody is asked after an error or a denial, and everybody is after anything else; what was
/// answered without a change is asked again as it was.
pub proof fn law_errors_and_denials_end_a_chain(call: HookCallV, ret: HookReturnV)
    requires
        ret.answers(call),
    ensures
        passed_on(call, ret) is None <==> ret.is_error() || ret matches HookReturnV::Decision(
            Ok(DecisionV::Deny(_)),
        ),
        passed_on(call, call.unchanged()) == Some(call),
        falls_back(ret) <==> passed_on(call, ret) is None,
{
}

/// An extension with a label adds its label as words of the user behind what a provider is about
/// to see, or fails under its label; it denies tool calls for its reason, where it has one.
pub proof fn law_labels_are_said(ext: LabelExt, messages: Seq<MessageV>, call: HookCallV)
    ensures
        !ext.should_fail ==> (ext.answer(HookCallV::MessageStart(messages)) matches
            HookReturnV::Messages(Ok(said)) && said.drop_last() == messages
            && crate::types::blocks_text(said.last().content) == ext.label@),
        ext.should_fail ==> ext.answer(HookCallV::MessageStart(messages)).is_error(),
        call is ToolStart ==> (ext.deny_reason matches Some(reason) ==> ext.answer(call)
            == HookReturnV::Decision(Ok(DecisionV::Deny(reason@)))),
        call is ToolStart ==> (ext.deny_reason is None ==> ext.answer(call)
            == HookReturnV::Decision(Ok(DecisionV::Allow))),
        ext.answer(call).answers(call),
        !ext.should_fail && !(call is ToolStart) && !(call is MessageStart) ==> ext.answer(call)
            == call.unchanged(),
        ext.recorded(call).len() <= ext.calls@.len() + 1,
        ext.recorded(call).take(ext.calls@.len() as int) == views(ext.calls@),
{
    crate::types::law_texts_are_read_back("user"@, ext.label@, false);
    let said = messages.push(text_message("user"@, ext.label@));
    assert(said.drop_last() =~= messages);
    assert(ext.recorded(call).take(ext.calls@.len() as int) =~= views(ext.calls@));
}

/// An extension with a label fails under its label, at every point at which it can.
pub proof fn law_labels_fail_under_their_name(
    ext: LabelExt,
    messages: Seq<MessageV>,
    state: AgentStateV,
    response: StreamResponseV,
)
    requires
        ext.should_fail,
    ensures
        ({
            let failure = ExtensionErrorV::ExtensionFailed {
                name: ext.called(),
                message: "fail"@,
            };
            &&& ext.answer(HookCallV::MessageStart(messages)) == HookReturnV::Messages(Err(failure))
            &&& ext.answer(HookCallV::AgentStart(state)) == HookReturnV::State(Err(failure))
            &&& ext.answer(HookCallV::MessageUpdate(response)) == HookReturnV::Seen(Err(failure))
        }),
        ext.called() == ext.label@,
{
}

/// What is composed goes by the name of what it is: of nothing, of its only extension, or of a
/// chain of two or more.
pub proof fn law_compositions_are_named<E: Extension, A: Extension, B: Extension>(
    composed: Composed<E>,
    both: And<A, B>,
)
    ensures
        composed.chain@.len() == 0 ==> composed.called() == NoopExtension.called(),
        composed.chain@.len() == 1 ==> composed.called() == composed.chain@[0].called(),
        composed.chain@.len() > 1 ==> composed.called() == both.called(),
{
}

} // verus!
