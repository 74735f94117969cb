//! The input-ownership relation, and the subtree that hangs below an owner.

use vstd::prelude::*;
use crate::handle::{lists, MenuHandle};

verus! {

/// Says that `input` takes its input on behalf of `owner`.
#[derive(Clone, Copy, Debug, PartialEq, Eq, Structural)]
pub struct MenuInputOf {
    pub input: MenuHandle,
    pub owner: MenuHandle,
}

/// The input-ownership links of the host, in the order in which they were
/// made. A handle may own any number of inputs, and an input may own inputs of
/// its own.
#[derive(Debug)]
pub struct MenuInputs {
    links: Vec<MenuInputOf>,
}

impl View for MenuInputs {
    type V = Seq<MenuInputOf>;

    closed spec fn view(&self) -> Seq<MenuInputOf> {
        self.links@
    }
}

/// Whether a link says that `input` belongs to `owner`.
pub open spec fn owns(links: Seq<MenuInputOf>, owner: MenuHandle, input: MenuHandle) -> bool {
    links.contains(MenuInputOf { input, owner })
}

/// Whether a link names `handle` as an input.
pub open spec fn is_input(links: Seq<MenuInputOf>, handle: MenuHandle) -> bool {
    exists|i: int| 0 <= i < links.len() && (#[trigger] links[i]).input == handle
}

/// Whether a link names each of `handles` as an input.
pub open spec fn all_inputs(links: Seq<MenuInputOf>, handles: Seq<MenuHandle>) -> bool {
    forall|i: int| 0 <= i < handles.len() ==> is_input(links, #[trigger] handles[i])
}

/// The inputs that belong to `owner` directly, in the order of their links.
pub open spec fn inputs_of(links: Seq<MenuInputOf>, owner: MenuHandle) -> Seq<MenuHandle>
    decreases links.len(),
{
    if links.len() == 0 {
        Seq::empty()
    } else {
        let before = inputs_of(links.drop_last(), owner);
        if links.last().owner == owner {
            before.push(links.last().input)
        } else {
            before
        }
    }
}

/// Whether `steps` links lead from `owner` down to `handle`.
pub open spec fn reaches_within(
    links: Seq<MenuInputOf>,
    owner: MenuHandle,
    handle: MenuHandle,
    steps: nat,
) -> bool
    decreases steps,
{
    if steps == 0 {
        handle == owner
    } else {
        exists|via: MenuHandle|
            reaches_within(links, owner, via, (steps - 1) as nat) && #[trigger] owns(
                links,
                via,
                handle,
            )
    }
}

/// Whether `handle` is `owner` itself or one of its descendants, at any depth.
pub open spec fn in_subtree(links: Seq<MenuInputOf>, owner: MenuHandle, handle: MenuHandle) -> bool {
    exists|steps: nat| reaches_within(links, owner, handle, steps)
}

/// How many links name an input that `listed` does not hold.
pub open spec fn unlisted(links: Seq<MenuInputOf>, listed: Seq<MenuHandle>) -> nat
    decreases links.len(),
{
    if links.len() == 0 {
        0
    } else if listed.contains(links.last().input) {
        unlisted(links.drop_last(), listed)
    } else {
        unlisted(links.drop_last(), listed) + 1
    }
}

/// The depth-first walk: `listed` holds the handles visited so far, `pending`
/// those still to visit, the next one last. A pending handle that was visited
/// before is passed over; another one is listed, and its inputs are visited
/// next, in the order of their links.
pub open spec fn visit(
    links: Seq<MenuInputOf>,
    pending: Seq<MenuHandle>,
    listed: Seq<MenuHandle>,
) -> Seq<MenuHandle>
    decreases unlisted(links, listed), pending.len(),
    when all_inputs(links, pending)
    via visit_decreases
{
    if pending.len() == 0 {
        listed
    } else if listed.contains(pending.last()) {
        visit(links, pending.drop_last(), listed)
    } else {
        visit(
            links,
            pending.drop_last() + inputs_of(links, pending.last()).reverse(),
            listed.push(pending.last()),
        )
    }
}

#[via_fn]
proof fn visit_decreases(links: Seq<MenuInputOf>, pending: Seq<MenuHandle>, listed: Seq<MenuHandle>) {
    if pending.len() != 0 && !listed.contains(pending.last()) {
        lemma_listing_shrinks(links, listed, pending.last());
    }
}

/// `owner` and all its descendants: `owner` first, then each subtree of its
/// inputs in the order of their links, depth first. A handle that is reached
/// more than once is listed where it is reached first.
pub open spec fn subtree(links: Seq<MenuInputOf>, owner: MenuHandle) -> Seq<MenuHandle> {
    visit(links, inputs_of(links, owner).reverse(), seq![owner])
}

/// Listing one more handle leaves no more links unlisted than before, and
/// fewer if the handle is a new one that a link names as an input.
pub proof fn lemma_listing_shrinks(links: Seq<MenuInputOf>, listed: Seq<MenuHandle>, next: MenuHandle)
    ensures
        unlisted(links, listed.push(next)) <= unlisted(links, listed),
        is_input(links, next) && !listed.contains(next) ==> unlisted(links, listed.push(next))
            < unlisted(links, listed),
    decreases links.len(),
{
    if links.len() > 0 {
        let last = links.last();
        lemma_listing_shrinks(links.drop_last(), listed, next);
        assert(listed.push(next)[listed.len() as int] == next);
        if listed.contains(last.input) {
            let j = choose|j: int| 0 <= j < listed.len() && listed[j] == last.input;
            assert(listed.push(next)[j] == last.input);
        }
        if is_input(links, next) && last.input != next {
            let i = choose|i: int| 0 <= i < links.len() && links[i].input == next;
            assert(links.drop_last()[i].input == next);
        }
    }
}

/// The inputs of `owner` are the handles that a link gives to `owner`.
pub proof fn lemma_inputs_of_contains(links: Seq<MenuInputOf>, owner: MenuHandle, input: MenuHandle)
    ensures
        inputs_of(links, owner).contains(input) <==> owns(links, owner, input),
    decreases links.len(),
{
    let link = MenuInputOf { input, owner };
    if links.len() > 0 {
        let before = inputs_of(links.drop_last(), owner);
        lemma_inputs_of_contains(links.drop_last(), owner, input);
        if links.contains(link) {
            let i = choose|i: int| 0 <= i < links.len() && links[i] == link;
            if i < links.len() - 1 {
                assert(links.drop_last()[i] == link);
                let j = choose|j: int| 0 <= j < before.len() && before[j] == input;
                assert(inputs_of(links, owner)[j] == input);
            } else {
                assert(inputs_of(links, owner)[before.len() as int] == input);
            }
        }
        if inputs_of(links, owner).contains(input) {
            let j = choose|j: int|
                0 <= j < inputs_of(links, owner).len() && inputs_of(links, owner)[j] == input;
            if j < before.len() {
                assert(before[j] == input);
                let i = choose|i: int|
                    0 <= i < links.drop_last().len() && links.drop_last()[i] == link;
                assert(links[i] == link);
            } else {
                assert(links[links.len() - 1] == link);
            }
        }
    }
}

/// A handle that a link gives to a handle of the subtree is in the subtree.
pub proof fn lemma_in_subtree_step(
    links: Seq<MenuInputOf>,
    owner: MenuHandle,
    via: MenuHandle,
    handle: MenuHandle,
)
    requires
        in_subtree(links, owner, via),
        owns(links, via, handle),
    ensures
        in_subtree(links, owner, handle),
{
    let steps = choose|steps: nat| reaches_within(links, owner, via, steps);
    assert(reaches_within(links, owner, handle, steps + 1));
}

/// Whether each input of each handle of `listed` is in `listed` or `pending`.
spec fn closed_up_to(
    links: Seq<MenuInputOf>,
    listed: Seq<MenuHandle>,
    pending: Seq<MenuHandle>,
) -> bool {
    forall|owner: MenuHandle, input: MenuHandle|
        listed.contains(owner) && #[trigger] owns(links, owner, input) ==> listed.contains(input)
            || pending.contains(input)
}

/// Whether each of `handles` is in the subtree of `owner`.
spec fn all_in_subtree(links: Seq<MenuInputOf>, owner: MenuHandle, handles: Seq<MenuHandle>) -> bool {
    forall|handle: MenuHandle| #[trigger]
        handles.contains(handle) ==> in_subtree(links, owner, handle)
}

proof fn lemma_reverse_contains(handles: Seq<MenuHandle>, handle: MenuHandle)
    ensures
        handles.reverse().contains(handle) <==> handles.contains(handle),
{
    if handles.contains(handle) {
        let i = choose|i: int| 0 <= i < handles.len() && handles[i] == handle;
        assert(handles.reverse()[handles.len() - 1 - i] == handle);
    }
    if handles.reverse().contains(handle) {
        let i = choose|i: int| 0 <= i < handles.reverse().len() && handles.reverse()[i] == handle;
        assert(handles[handles.len() - 1 - i] == handle);
    }
}

proof fn lemma_drop_last_contains(handles: Seq<MenuHandle>, handle: MenuHandle)
    requires
        handles.len() > 0,
    ensures
        handles.contains(handle) <==> handles.drop_last().contains(handle) || handles.last()
            == handle,
{
    if handles.contains(handle) {
        let i = choose|i: int| 0 <= i < handles.len() && handles[i] == handle;
        if i < handles.len() - 1 {
            assert(handles.drop_last()[i] == handle);
        }
    }
    if handles.drop_last().contains(handle) {
        let i = choose|i: int|
            0 <= i < handles.drop_last().len() && handles.drop_last()[i] == handle;
        assert(handles[i] == handle);
    }
}

/// What the walk keeps true from start to end: it lists no handle twice and
/// none from outside the subtree, keeps what it has listed, and ends with
/// every input of a listed handle listed too.
proof fn lemma_visit(
    links: Seq<MenuInputOf>,
    owner: MenuHandle,
    pending: Seq<MenuHandle>,
    listed: Seq<MenuHandle>,
)
    requires
        all_inputs(links, pending),
        listed.no_duplicates(),
        closed_up_to(links, listed, pending),
        all_in_subtree(links, owner, listed),
        all_in_subtree(links, owner, pending),
    ensures
        visit(links, pending, listed).no_duplicates(),
        listed.is_prefix_of(visit(links, pending, listed)),
        closed_up_to(links, visit(links, pending, listed), Seq::empty()),
        all_in_subtree(links, owner, visit(links, pending, listed)),
    decreases unlisted(links, listed), pending.len(),
{
    broadcast use
        vstd::seq_lib::lemma_seq_contains_after_push,
        vstd::seq_lib::lemma_seq_concat_contains_all_elements,
    ;

    if pending.len() > 0 {
        let next = pending.last();
        let rest = pending.drop_last();
        assert forall|handle: MenuHandle|
            pending.contains(handle) <==> rest.contains(handle) || next == handle by {
            lemma_drop_last_contains(pending, handle);
        }
        if listed.contains(next) {
            lemma_visit(links, owner, rest, listed);
        } else {
            let inputs = inputs_of(links, next).reverse();
            assert(pending[pending.len() - 1] == next);
            assert(pending.contains(next));
            lemma_listing_shrinks(links, listed, next);
            lemma_pending_stays_inputs(links, pending, next);
            assert forall|handle: MenuHandle|
                inputs.contains(handle) <==> owns(links, next, handle) by {
                lemma_reverse_contains(inputs_of(links, next), handle);
                lemma_inputs_of_contains(links, next, handle);
            }
            assert forall|handle: MenuHandle| #[trigger]
                (rest + inputs).contains(handle) implies in_subtree(links, owner, handle) by {
                if !rest.contains(handle) {
                    lemma_in_subtree_step(links, owner, next, handle);
                }
            }
            lemma_visit(links, owner, rest + inputs, listed.push(next));
            assert(listed.is_prefix_of(listed.push(next)));
        }
    }
}

/// The subtree of `owner` is closed, complete and exact: it begins with
/// `owner`, lists no handle twice, and lists a handle exactly if links lead
/// from `owner` down to it, over however many steps.
pub proof fn lemma_subtree_is_exact(links: Seq<MenuInputOf>, owner: MenuHandle)
    ensures
        subtree(links, owner).len() > 0,
        subtree(links, owner).first() == owner,
        subtree(links, owner).no_duplicates(),
        forall|handle: MenuHandle| #[trigger]
            subtree(links, owner).contains(handle) <==> in_subtree(links, owner, handle),
{
    let walk = subtree(links, owner);
    lemma_subtree_start(links, owner);
    assert forall|handle: MenuHandle| in_subtree(links, owner, handle) implies #[trigger]
        walk.contains(handle) by {
        let steps = choose|steps: nat| reaches_within(links, owner, handle, steps);
        lemma_subtree_holds_every_depth(links, owner, handle, steps);
    }
}

/// The walk from `owner` starts out in a state that `lemma_visit` accepts.
proof fn lemma_subtree_start(links: Seq<MenuInputOf>, owner: MenuHandle)
    ensures
        subtree(links, owner).len() > 0,
        subtree(links, owner).first() == owner,
        subtree(links, owner).no_duplicates(),
        closed_up_to(links, subtree(links, owner), Seq::empty()),
        all_in_subtree(links, owner, subtree(links, owner)),
{
    let pending = inputs_of(links, owner).reverse();
    let listed = seq![owner];
    lemma_pending_stays_inputs(links, Seq::empty(), owner);
    assert(reaches_within(links, owner, owner, 0));
    assert forall|handle: MenuHandle| pending.contains(handle) <==> owns(links, owner, handle) by {
        lemma_reverse_contains(inputs_of(links, owner), handle);
        lemma_inputs_of_contains(links, owner, handle);
    }
    assert forall|handle: MenuHandle| #[trigger] pending.contains(handle) implies in_subtree(
        links,
        owner,
        handle,
    ) by {
        lemma_in_subtree_step(links, owner, owner, handle);
    }
    lemma_visit(links, owner, pending, listed);
    assert(subtree(links, owner)[0] == listed[0]);
}

/// Whatever the depth, a handle that `steps` links lead down to from `owner`
/// is in the subtree of `owner`.
pub proof fn lemma_subtree_holds_every_depth(
    links: Seq<MenuInputOf>,
    owner: MenuHandle,
    handle: MenuHandle,
    steps: nat,
)
    requires
        reaches_within(links, owner, handle, steps),
    ensures
        subtree(links, owner).contains(handle),
    decreases steps,
{
    lemma_subtree_start(links, owner);
    if steps == 0 {
        assert(subtree(links, owner)[0] == handle);
    } else {
        let via = choose|via: MenuHandle|
            reaches_within(links, owner, via, (steps - 1) as nat) && #[trigger] owns(
                links,
                via,
                handle,
            );
        lemma_subtree_holds_every_depth(links, owner, via, (steps - 1) as nat);
    }
}

fn push_reversed(pending: &mut Vec<MenuHandle>, handles: &Vec<MenuHandle>)
    ensures
        final(pending)@ == old(pending)@ + handles@.reverse(),
{
    let ghost before = pending@;
    let mut i: usize = handles.len();
    assert(handles@.skip(i as int).reverse() =~= Seq::<MenuHandle>::empty());
    while i > 0
        invariant
            i <= handles.len(),
            pending@ == before + handles@.skip(i as int).reverse(),
        decreases i,
    {
        i -= 1;
        pending.push(handles[i]);
        proof {
            let longer = handles@.skip(i as int);
            let shorter = handles@.skip(i + 1);
            assert(longer.reverse() =~= shorter.reverse().push(handles@[i as int]));
        }
    }
    assert(handles@.skip(0) == handles@);
}

impl MenuInputs {
    /// No links.
    pub fn new() -> (menu_inputs: MenuInputs)
        ensures
            menu_inputs@ == Seq::<MenuInputOf>::empty(),
    {
        MenuInputs { links: Vec::new() }
    }

    /// Adds `link` after the links made so far.
    pub fn insert(&mut self, link: MenuInputOf)
        ensures
            final(self)@ == old(self)@.push(link),
    {
        self.links.push(link);
    }

    /// The inputs that belong to `owner` directly, in the order of their links.
    pub fn inputs_of(&self, owner: MenuHandle) -> (inputs: Vec<MenuHandle>)
        ensures
            inputs@ == inputs_of(self@, owner),
    {
        let mut inputs: Vec<MenuHandle> = Vec::new();
        let mut i: usize = 0;
        while i < self.links.len()
            invariant
                i <= self.links.len(),
                inputs@ == inputs_of(self.links@.take(i as int), owner),
            decreases self.links.len() - i,
        {
            assert(self.links@.take(i + 1).drop_last() == self.links@.take(i as int));
            if self.links[i].owner == owner {
                inputs.push(self.links[i].input);
            }
            i += 1;
        }
        assert(self.links@.take(i as int) == self.links@);
        inputs
    }

    /// `owner` and all its descendants, depth first, each of them once.
    pub fn subtree(&self, owner: MenuHandle) -> (listed: Vec<MenuHandle>)
        ensures
            listed@ == subtree(self@, owner),
    {
        let mut listed: Vec<MenuHandle> = Vec::new();
        listed.push(owner);
        let mut pending: Vec<MenuHandle> = Vec::new();
        let inputs = self.inputs_of(owner);
        push_reversed(&mut pending, &inputs);
        proof {
            lemma_pending_stays_inputs(self@, Seq::empty(), owner);
            assert(listed@ == seq![owner]);
            assert(pending@ == inputs_of(self@, owner).reverse());
        }
        while pending.len() > 0
            invariant
                all_inputs(self@, pending@),
                visit(self@, pending@, listed@) == subtree(self@, owner),
            decreases unlisted(self@, listed@), pending.len(),
        {
            let ghost before = pending@;
            let next = pending.pop().unwrap();
            assert(next == before.last() && pending@ == before.drop_last());
            if !lists(&listed, next) {
                proof {
                    lemma_listing_shrinks(self@, listed@, next);
                    lemma_pending_stays_inputs(self@, before, next);
                }
                listed.push(next);
                let inputs = self.inputs_of(next);
                push_reversed(&mut pending, &inputs);
            }
        }
        listed
    }
}

/// The walk only ever waits for inputs: where `pending` holds inputs alone, it
/// still does once its last handle made way for the inputs of `owner`.
proof fn lemma_pending_stays_inputs(
    links: Seq<MenuInputOf>,
    pending: Seq<MenuHandle>,
    owner: MenuHandle,
)
    requires
        all_inputs(links, pending),
    ensures
        all_inputs(links, inputs_of(links, owner).reverse()),
        pending.len() > 0 ==> all_inputs(
            links,
            pending.drop_last() + inputs_of(links, owner).reverse(),
        ),
{
    let inputs = inputs_of(links, owner);
    assert forall|i: int| 0 <= i < inputs.len() implies is_input(links, #[trigger] inputs[i]) by {
        lemma_inputs_of_contains(links, owner, inputs[i]);
        let k = choose|k: int|
            0 <= k < links.len() && links[k] == (MenuInputOf { input: inputs[i], owner });
        assert(links[k].input == inputs[i]);
    }
    assert forall|i: int| 0 <= i < inputs.reverse().len() implies is_input(
        links,
        #[trigger] inputs.reverse()[i],
    ) by {
        assert(inputs.reverse()[i] == inputs[inputs.len() - 1 - i]);
    }
    if pending.len() > 0 {
        let kept = pending.drop_last();
        let joined = kept + inputs.reverse();
        assert forall|i: int| 0 <= i < joined.len() implies is_input(links, #[trigger] joined[i]) by {
            if i < kept.len() {
                assert(joined[i] == pending[i]);
            } else {
                assert(joined[i] == inputs.reverse()[i - kept.len()]);
            }
        }
    }
}

} // verus!
