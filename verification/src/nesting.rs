//! Managers inside managers: which services an operation reaches in the end,
//! and in which order.
//!
//! A manager treats a manager registered in it as any other service, so it
//! cannot tell what an operation sets off further down. This module puts the
//! levels together: it takes what one manager does with one operation, as
//! the contracts of `ServiceManager` state it, and follows it through a
//! whole arrangement of managers.

use crate::dispatch::relayed;
use crate::dispatch::Dispatch;
use crate::dispatch::Operation;
use vstd::prelude::*;

verus! {

/// How a service is made up: either it is a plain service, or it is a
/// manager, given by the make-up of each service registered in it, in the
/// order of registration.
pub enum Composition {
    Plain,
    Managed(Seq<Composition>),
}

impl Composition {
    /// The plain services that `operation` reaches when it is issued to a
    /// service of this make-up, in the order in which it reaches them.
    ///
    /// A plain service is known by its path: the positions that lead to it,
    /// from the outermost manager inwards. `path` is the path of the service
    /// that the operation is issued to.
    pub open spec fn reached(self, operation: Operation, path: Seq<nat>) -> Seq<Seq<nat>>
        decreases self, 0nat,
    {
        match self {
            Composition::Plain => seq![path],
            Composition::Managed(parts) => Self::reached_by(
                parts,
                relayed(operation, parts.len()),
                path,
            ),
        }
    }

    /// The plain services that `calls` reach, issued one after the other by
    /// the manager at `path` to the services registered in it, which are
    /// made up as `parts` says.
    pub open spec fn reached_by(parts: Seq<Composition>, calls: Seq<Dispatch>, path: Seq<nat>) -> Seq<
        Seq<nat>,
    >
        decreases parts, calls.len(),
    {
        if calls.len() == 0 {
            Seq::empty()
        } else {
            Self::reached_by(parts, calls.drop_last(), path) + Self::reached_in(
                parts,
                calls.last(),
                path,
            )
        }
    }

    /// Whether `route`, followed from a service of this make-up inwards, ends
    /// at a plain service.
    pub open spec fn leads_to_plain(self, route: Seq<nat>) -> bool
        decreases route.len(),
    {
        match self {
            Composition::Plain => route.len() == 0,
            Composition::Managed(parts) => route.len() > 0 && route[0] < parts.len()
                && parts[route[0] as int].leads_to_plain(route.drop_first()),
        }
    }

    /// The plain services that the one call `call` reaches.
    pub open spec fn reached_in(parts: Seq<Composition>, call: Dispatch, path: Seq<nat>) -> Seq<
        Seq<nat>,
    >
        decreases parts, 0nat,
    {
        if call.position < parts.len() {
            parts[call.position as int].reached(call.operation, path.push(call.position))
        } else {
            Seq::empty()
        }
    }
}

/// Whether the plain service at the end of `earlier` stands before the one
/// at the end of `later`: in the first manager in which the two routes part,
/// the one is registered before the other.
pub open spec fn stands_before(earlier: Seq<nat>, later: Seq<nat>) -> bool
    decreases earlier.len(),
{
    earlier.len() > 0 && later.len() > 0 && (earlier[0] < later[0] || (earlier[0] == later[0]
        && stands_before(earlier.drop_first(), later.drop_first())))
}

/// The step at which a manager of `count` services issues `operation` to
/// the service at `position`.
spec fn step_to(operation: Operation, count: nat, position: int) -> int {
    if operation.winds_down() {
        count - 1 - position
    } else {
        position
    }
}

/// Whether, below each of `parts`, `down` reaches the plain services in
/// the reverse of the order in which `up` reaches them.
spec fn mirrored_below(parts: Seq<Composition>, up: Operation, down: Operation) -> bool {
    forall|position: int, path: Seq<nat>|
        0 <= position < parts.len() ==> #[trigger] parts[position].reached(down, path)
            == parts[position].reached(up, path).reverse()
}

/// Whether `downs` goes to the positions of `ups` in reverse order, each
/// call of `ups` asking `up` and each call of `downs` asking `down`.
spec fn mirrored_calls(
    ups: Seq<Dispatch>,
    downs: Seq<Dispatch>,
    up: Operation,
    down: Operation,
) -> bool {
    &&& ups.len() == downs.len()
    &&& forall|step: int| 0 <= step < ups.len() ==> (#[trigger] ups[step]).operation == up
    &&& forall|step: int|
        0 <= step < downs.len() ==> (#[trigger] downs[step]).operation == down
            && downs[step].position == ups[ups.len() - 1 - step].position
}

/// Reversing two runs laid end to end reverses each and swaps them.
proof fn lemma_reverse_of_joined<A>(front: Seq<A>, back: Seq<A>)
    ensures
        (front + back).reverse() == back.reverse() + front.reverse(),
{
    assert((front + back).reverse() =~= back.reverse() + front.reverse());
}

/// What a run of calls reaches is what its first call reaches, followed by
/// what the calls after it reach.
proof fn lemma_reached_by_first_and_rest(
    parts: Seq<Composition>,
    first: Dispatch,
    rest: Seq<Dispatch>,
    path: Seq<nat>,
)
    ensures
        Composition::reached_by(parts, seq![first] + rest, path) == Composition::reached_in(
            parts,
            first,
            path,
        ) + Composition::reached_by(parts, rest, path),
    decreases rest.len(),
{
    let calls = seq![first] + rest;
    if rest.len() == 0 {
        assert(calls.drop_last() =~= rest);
        assert(calls.last() == first);
        assert(Composition::reached_by(parts, rest, path) =~= Seq::<Seq<nat>>::empty());
        assert(Composition::reached_by(parts, calls, path) =~= Composition::reached_in(
            parts,
            first,
            path,
        ) + Composition::reached_by(parts, rest, path));
    } else {
        assert(calls.drop_last() =~= seq![first] + rest.drop_last());
        assert(calls.last() == rest.last());
        lemma_reached_by_first_and_rest(parts, first, rest.drop_last(), path);
        let head = Composition::reached_in(parts, first, path);
        let middle = Composition::reached_by(parts, rest.drop_last(), path);
        let tail = Composition::reached_in(parts, rest.last(), path);
        assert(Composition::reached_by(parts, calls, path) == (head + middle) + tail);
        assert(Composition::reached_by(parts, rest, path) == middle + tail);
        assert((head + middle) + tail =~= head + (middle + tail));
    }
}

/// Where the order is reversed below each service, calls that go to the
/// services in reverse order reach the plain services in reverse order.
proof fn lemma_mirrored_calls_reach_in_reverse(
    parts: Seq<Composition>,
    ups: Seq<Dispatch>,
    downs: Seq<Dispatch>,
    up: Operation,
    down: Operation,
    path: Seq<nat>,
)
    requires
        mirrored_below(parts, up, down),
        mirrored_calls(ups, downs, up, down),
    ensures
        Composition::reached_by(parts, downs, path) == Composition::reached_by(
            parts,
            ups,
            path,
        ).reverse(),
    decreases ups.len(),
{
    if ups.len() == 0 {
        assert(Composition::reached_by(parts, downs, path) =~= Composition::reached_by(
            parts,
            ups,
            path,
        ).reverse());
    } else {
        let last_up = ups.last();
        let first_down = downs.first();
        let earlier_ups = ups.drop_last();
        let later_downs = downs.drop_first();
        assert(downs =~= seq![first_down] + later_downs);
        lemma_reached_by_first_and_rest(parts, first_down, later_downs, path);
        assert(mirrored_calls(earlier_ups, later_downs, up, down)) by {
            assert forall|step: int| 0 <= step < later_downs.len() implies (
            #[trigger] later_downs[step]).operation == down && later_downs[step].position
                == earlier_ups[earlier_ups.len() - 1 - step].position by {
                assert(later_downs[step] == downs[step + 1]);
            }
        }
        lemma_mirrored_calls_reach_in_reverse(parts, earlier_ups, later_downs, up, down, path);
        assert(first_down == downs[0]);
        assert(first_down.position == last_up.position);
        assert(Composition::reached_in(parts, first_down, path) == Composition::reached_in(
            parts,
            last_up,
            path,
        ).reverse()) by {
            if last_up.position < parts.len() {
                let inner = path.push(last_up.position);
                assert(parts[last_up.position as int].reached(down, inner)
                    == parts[last_up.position as int].reached(up, inner).reverse());
            } else {
                assert(Seq::<Seq<nat>>::empty() =~= Seq::<Seq<nat>>::empty().reverse());
            }
        }
        lemma_reverse_of_joined(
            Composition::reached_by(parts, earlier_ups, path),
            Composition::reached_in(parts, last_up, path),
        );
    }
}

/// Stopping undoes starting in exactly the reverse order, at every depth:
/// whatever the arrangement of managers inside managers, an operation that
/// winds down reaches the plain services in the reverse of the order in which
/// an operation that winds up reaches them.
pub proof fn lemma_winding_down_reverses_winding_up(
    shape: Composition,
    up: Operation,
    down: Operation,
    path: Seq<nat>,
)
    requires
        !up.winds_down(),
        down.winds_down(),
    ensures
        shape.reached(down, path) == shape.reached(up, path).reverse(),
    decreases shape,
{
    match shape {
        Composition::Plain => {
            assert(seq![path] =~= seq![path].reverse());
        },
        Composition::Managed(parts) => {
            assert forall|position: int, inner: Seq<nat>| 0 <= position < parts.len() implies (
            #[trigger] parts[position].reached(down, inner)) == parts[position].reached(
                up,
                inner,
            ).reverse() by {
                lemma_winding_down_reverses_winding_up(parts[position], up, down, inner);
            }
            lemma_mirrored_calls_reach_in_reverse(
                parts,
                relayed(up, parts.len()),
                relayed(down, parts.len()),
                up,
                down,
                path,
            );
        },
    }
}

/// Every call that a manager issues for an operation is that operation,
/// goes to a registered service, and each registered service gets one.
proof fn lemma_relayed_covers(operation: Operation, count: nat)
    ensures
        relayed(operation, count).len() == count,
        forall|step: int|
            0 <= step < count ==> (#[trigger] relayed(operation, count)[step]).operation
                == operation && relayed(operation, count)[step].position < count,
        forall|position: int|
            0 <= position < count ==> (#[trigger] relayed(operation, count)[step_to(
                operation,
                count,
                position,
            )]).position == position,
        forall|position: int|
            0 <= position < count ==> 0 <= #[trigger] step_to(operation, count, position) < count,
{
}

/// What one call of a run reaches, the run reaches.
proof fn lemma_reached_by_includes(
    parts: Seq<Composition>,
    calls: Seq<Dispatch>,
    path: Seq<nat>,
    step: int,
    target: Seq<nat>,
)
    requires
        0 <= step < calls.len(),
        Composition::reached_in(parts, calls[step], path).contains(target),
    ensures
        Composition::reached_by(parts, calls, path).contains(target),
    decreases calls.len(),
{
    let front = Composition::reached_by(parts, calls.drop_last(), path);
    let back = Composition::reached_in(parts, calls.last(), path);
    if step == calls.len() - 1 {
        let offset = choose|offset: int| 0 <= offset < back.len() && back[offset] == target;
        assert((front + back)[front.len() + offset] == target);
    } else {
        assert(calls.drop_last()[step] == calls[step]);
        lemma_reached_by_includes(parts, calls.drop_last(), path, step, target);
        let index = choose|index: int| 0 <= index < front.len() && front[index] == target;
        assert((front + back)[index] == target);
    }
}

/// Finds, for what a run of calls reaches at `index`, the call that reaches
/// it and the place it has among what that call reaches.
proof fn lemma_locate(parts: Seq<Composition>, calls: Seq<Dispatch>, path: Seq<nat>, index: int)
    -> (found: (int, int))
    requires
        0 <= index < Composition::reached_by(parts, calls, path).len(),
    ensures
        0 <= found.0 < calls.len(),
        0 <= found.1 < Composition::reached_in(parts, calls[found.0], path).len(),
        Composition::reached_by(parts, calls, path)[index] == Composition::reached_in(
            parts,
            calls[found.0],
            path,
        )[found.1],
    decreases calls.len(),
{
    let front = Composition::reached_by(parts, calls.drop_last(), path);
    if index < front.len() {
        let found = lemma_locate(parts, calls.drop_last(), path, index);
        assert(calls.drop_last()[found.0] == calls[found.0]);
        found
    } else {
        (calls.len() - 1, index - front.len())
    }
}

/// Finds the calls that reach what a run reaches at `sooner` and at `later`:
/// the second is no earlier call than the first, and where it is the same
/// call, it reaches the second after the first.
proof fn lemma_locate_two(
    parts: Seq<Composition>,
    calls: Seq<Dispatch>,
    path: Seq<nat>,
    sooner: int,
    later: int,
) -> (found: ((int, int), (int, int)))
    requires
        0 <= sooner < later < Composition::reached_by(parts, calls, path).len(),
    ensures
        0 <= found.0.0 <= found.1.0 < calls.len(),
        found.0.0 == found.1.0 ==> found.0.1 < found.1.1,
        0 <= found.0.1 < Composition::reached_in(parts, calls[found.0.0], path).len(),
        0 <= found.1.1 < Composition::reached_in(parts, calls[found.1.0], path).len(),
        Composition::reached_by(parts, calls, path)[sooner] == Composition::reached_in(
            parts,
            calls[found.0.0],
            path,
        )[found.0.1],
        Composition::reached_by(parts, calls, path)[later] == Composition::reached_in(
            parts,
            calls[found.1.0],
            path,
        )[found.1.1],
    decreases calls.len(),
{
    let front = Composition::reached_by(parts, calls.drop_last(), path);
    if later < front.len() {
        let found = lemma_locate_two(parts, calls.drop_last(), path, sooner, later);
        assert(calls.drop_last()[found.0.0] == calls[found.0.0]);
        assert(calls.drop_last()[found.1.0] == calls[found.1.0]);
        found
    } else if sooner < front.len() {
        let first = lemma_locate(parts, calls.drop_last(), path, sooner);
        assert(calls.drop_last()[first.0] == calls[first.0]);
        (first, (calls.len() - 1, later - front.len()))
    } else {
        ((calls.len() - 1, sooner - front.len()), (calls.len() - 1, later - front.len()))
    }
}

/// An operation goes all the way down: issued to a service, it reaches
/// exactly the plain services inside it, at whatever depth they are, each
/// under the path that leads to it.
pub proof fn lemma_reaches_the_plain_services(
    shape: Composition,
    operation: Operation,
    path: Seq<nat>,
    target: Seq<nat>,
)
    ensures
        shape.reached(operation, path).contains(target) <==> path.is_prefix_of(target)
            && shape.leads_to_plain(target.skip(path.len() as int)),
    decreases shape,
{
    let depth = path.len() as int;
    match shape {
        Composition::Plain => {
            assert(seq![path][0] == path);
            if path.is_prefix_of(target) && target.skip(depth).len() == 0 {
                assert(target =~= path);
            }
            if seq![path].contains(target) {
                assert(target.skip(depth) =~= Seq::<nat>::empty());
            }
        },
        Composition::Managed(parts) => {
            let calls = relayed(operation, parts.len());
            let all = Composition::reached_by(parts, calls, path);
            lemma_relayed_covers(operation, parts.len());
            if all.contains(target) {
                let index = choose|index: int| 0 <= index < all.len() && all[index] == target;
                let found = lemma_locate(parts, calls, path, index);
                let position = calls[found.0].position;
                let inner = path.push(position);
                assert(parts[position as int].reached(operation, inner)[found.1] == target);
                lemma_reaches_the_plain_services(
                    parts[position as int],
                    operation,
                    inner,
                    target,
                );
                assert(inner.is_prefix_of(target));
                assert(target.subrange(0, depth + 1)[depth] == inner[depth]);
                assert(path =~= target.subrange(0, depth)) by {
                    assert forall|at: int| 0 <= at < depth implies path[at] == target[at] by {
                        assert(target.subrange(0, depth + 1)[at] == inner[at]);
                    }
                }
                assert(target.skip(depth).drop_first() =~= target.skip(depth + 1));
            }
            if path.is_prefix_of(target) && shape.leads_to_plain(target.skip(depth)) {
                let route = target.skip(depth);
                let position = route[0];
                let inner = path.push(position);
                assert(route.drop_first() =~= target.skip(depth + 1));
                assert(inner =~= target.subrange(0, depth + 1)) by {
                    assert forall|at: int| 0 <= at < depth + 1 implies inner[at] == target[at] by {
                        if at < depth {
                            assert(target.subrange(0, depth)[at] == path[at]);
                        }
                    }
                }
                lemma_reaches_the_plain_services(
                    parts[position as int],
                    operation,
                    inner,
                    target,
                );
                let step = step_to(operation, parts.len(), position as int);
                assert(calls[step].position == position);
                lemma_reached_by_includes(parts, calls, path, step, target);
            }
        },
    }
}

/// Starting follows registration at every depth: of two plain services that
/// an operation that winds up reaches, it reaches first the one that stands
/// before the other.
pub proof fn lemma_winding_up_follows_registration(
    shape: Composition,
    up: Operation,
    path: Seq<nat>,
    sooner: int,
    later: int,
)
    requires
        !up.winds_down(),
        0 <= sooner < later < shape.reached(up, path).len(),
    ensures
        stands_before(
            shape.reached(up, path)[sooner].skip(path.len() as int),
            shape.reached(up, path)[later].skip(path.len() as int),
        ),
    decreases shape,
{
    let depth = path.len() as int;
    match shape {
        Composition::Plain => {},
        Composition::Managed(parts) => {
            let calls = relayed(up, parts.len());
            let all = Composition::reached_by(parts, calls, path);
            lemma_relayed_covers(up, parts.len());
            let found = lemma_locate_two(parts, calls, path, sooner, later);
            let first = calls[found.0.0].position;
            let second = calls[found.1.0].position;
            let below_first = parts[first as int].reached(up, path.push(first));
            let below_second = parts[second as int].reached(up, path.push(second));
            assert(below_first[found.0.1] == all[sooner]);
            assert(below_second[found.1.1] == all[later]);
            lemma_reaches_the_plain_services(
                parts[first as int],
                up,
                path.push(first),
                all[sooner],
            );
            lemma_reaches_the_plain_services(
                parts[second as int],
                up,
                path.push(second),
                all[later],
            );
            assert(all[sooner].subrange(0, depth + 1)[depth] == path.push(first)[depth]);
            assert(all[later].subrange(0, depth + 1)[depth] == path.push(second)[depth]);
            assert(all[sooner].skip(depth)[0] == first);
            assert(all[later].skip(depth)[0] == second);
            if found.0.0 == found.1.0 {
                lemma_winding_up_follows_registration(
                    parts[first as int],
                    up,
                    path.push(first),
                    found.0.1,
                    found.1.1,
                );
                assert(all[sooner].skip(depth).drop_first() =~= all[sooner].skip(depth + 1));
                assert(all[later].skip(depth).drop_first() =~= all[later].skip(depth + 1));
            }
        },
    }
}

/// Stopping follows registration backwards at every depth: of two plain
/// services that an operation that winds down reaches, it reaches first the
/// one that stands behind the other.
pub proof fn lemma_winding_down_follows_registration_backwards(
    shape: Composition,
    down: Operation,
    path: Seq<nat>,
    sooner: int,
    later: int,
)
    requires
        down.winds_down(),
        0 <= sooner < later < shape.reached(down, path).len(),
    ensures
        stands_before(
            shape.reached(down, path)[later].skip(path.len() as int),
            shape.reached(down, path)[sooner].skip(path.len() as int),
        ),
{
    let up = Operation::Start;
    let forwards = shape.reached(up, path);
    lemma_winding_down_reverses_winding_up(shape, up, down, path);
    assert(shape.reached(down, path).len() == forwards.len());
    assert(shape.reached(down, path)[sooner] == forwards[forwards.len() - 1 - sooner]);
    assert(shape.reached(down, path)[later] == forwards[forwards.len() - 1 - later]);
    lemma_winding_up_follows_registration(
        shape,
        up,
        path,
        forwards.len() - 1 - later,
        forwards.len() - 1 - sooner,
    );
}

/// No service stands before itself.
proof fn lemma_stands_before_tells_apart(earlier: Seq<nat>, later: Seq<nat>)
    requires
        stands_before(earlier, later),
    ensures
        earlier != later,
    decreases earlier.len(),
{
    if earlier[0] == later[0] {
        lemma_stands_before_tells_apart(earlier.drop_first(), later.drop_first());
    }
}

/// An operation reaches no plain service twice.
pub proof fn lemma_reaches_no_service_twice(
    shape: Composition,
    operation: Operation,
    path: Seq<nat>,
)
    ensures
        shape.reached(operation, path).no_duplicates(),
{
    let all = shape.reached(operation, path);
    let depth = path.len() as int;
    assert forall|sooner: int, later: int|
        0 <= sooner < all.len() && 0 <= later < all.len() && sooner != later implies all[sooner]
        != all[later] by {
        let (low, high) = if sooner < later {
            (sooner, later)
        } else {
            (later, sooner)
        };
        if operation.winds_down() {
            lemma_winding_down_follows_registration_backwards(shape, operation, path, low, high);
            lemma_stands_before_tells_apart(all[high].skip(depth), all[low].skip(depth));
        } else {
            lemma_winding_up_follows_registration(shape, operation, path, low, high);
            lemma_stands_before_tells_apart(all[low].skip(depth), all[high].skip(depth));
        }
    }
}

/// Calls that go to plain services reach them one for one: each call
/// reaches the service at its position, and nothing else.
proof fn lemma_calls_to_plain_services(
    parts: Seq<Composition>,
    calls: Seq<Dispatch>,
    path: Seq<nat>,
)
    requires
        forall|position: int| 0 <= position < parts.len() ==> parts[position] == Composition::Plain,
        forall|step: int| 0 <= step < calls.len() ==> (#[trigger] calls[step]).position < parts.len(),
    ensures
        Composition::reached_by(parts, calls, path) == Seq::new(
            calls.len(),
            |step: int| path.push(calls[step].position),
        ),
    decreases calls.len(),
{
    let direct = Seq::new(calls.len(), |step: int| path.push(calls[step].position));
    if calls.len() == 0 {
        assert(Composition::reached_by(parts, calls, path) =~= direct);
    } else {
        let earlier = calls.drop_last();
        lemma_calls_to_plain_services(parts, earlier, path);
        let last = calls.last();
        assert(parts[last.position as int] == Composition::Plain);
        assert(Composition::reached_in(parts, last, path) == seq![path.push(last.position)]);
        assert(Composition::reached_by(parts, calls, path) =~= direct) by {
            assert forall|step: int| 0 <= step < calls.len() - 1 implies earlier[step]
                == calls[step] by {}
        }
    }
}

/// One level is what a manager's own contract says: where every service
/// registered in a manager is plain, an operation reaches them in the very
/// order of the calls that the manager issues for it.
pub proof fn lemma_manager_of_plain_services(count: nat, operation: Operation, path: Seq<nat>)
    ensures
        Composition::Managed(Seq::new(count, |position: int| Composition::Plain)).reached(
            operation,
            path,
        ) == Seq::new(count, |step: int| path.push(relayed(operation, count)[step].position)),
{
    let parts = Seq::new(count, |position: int| Composition::Plain);
    lemma_relayed_covers(operation, count);
    lemma_calls_to_plain_services(parts, relayed(operation, count), path);
}

} // verus!
