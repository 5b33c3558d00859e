//! What incremental transfers deliver, seen from both ends.

use vstd::prelude::*;

use crate::bridge::{
    advanced, after_write, chunk_end, chunk_written, find_target, offering, owned_selection,
    request_step_of, served, target_atoms, BridgeView, ChunkOutcome, IncrChunk, IncrView,
    OwnedTarget, RequestError, RequestStep, WriteView,
};
use crate::content::{lookup, strictly_ordered, OfferView};
use crate::events::SelectionRequest;
use crate::property::{ReplyView, ValueView, NONE};
use crate::receive::{
    any_exceeded, chunk_bytes, chunk_differs, ends_transfer, transfer_kind, TransferView,
};
use crate::request::{
    bytes_delivered, chunk_delivered, law_incremental_target_is_whole, reply_taken, ReadingView,
    RequestProgress, RequestView, TargetError,
};
use crate::snapshot::{
    is_x11_target_list, law_x11_target_data, serves_x11_target, x11_target_list,
};
use crate::wire::ByteOrder;

verus! {

/// The bytes of the next chunk of a transfer.
pub open spec fn next_chunk(transfer: IncrView, max_property_bytes: nat) -> Seq<u8> {
    transfer.data.subrange(
        transfer.offset as int,
        chunk_end(transfer, max_property_bytes) as int,
    )
}

/// A transfer after `count` chunks.
pub open spec fn after_chunks(transfer: IncrView, max_property_bytes: nat, count: nat) -> IncrView
    decreases count,
{
    if count == 0 {
        transfer
    } else {
        let before = after_chunks(transfer, max_property_bytes, (count - 1) as nat);
        IncrView { offset: chunk_end(before, max_property_bytes), ..before }
    }
}

/// The first `count` chunks of a transfer as their reader finds them: 8-bit
/// data of the type of the target.
pub open spec fn chunks_found(transfer: IncrView, max_property_bytes: nat, count: nat) -> Seq<
    ValueView,
>
    decreases count,
{
    if count == 0 {
        seq![]
    } else {
        let earlier = (count - 1) as nat;
        chunks_found(transfer, max_property_bytes, earlier).push(
            ValueView {
                type_: transfer.target,
                format: 8,
                data: next_chunk(
                    after_chunks(transfer, max_property_bytes, earlier),
                    max_property_bytes,
                ),
                exceeded_limit: false,
            },
        )
    }
}

/// Each chunk takes up where the one before it ended, is no larger than
/// a property may be, and is empty only when everything was sent.
pub proof fn law_chunk_progress(transfer: IncrView, max_property_bytes: nat)
    requires
        transfer.offset <= transfer.data.len(),
        max_property_bytes > 0,
    ensures
        transfer.offset <= chunk_end(transfer, max_property_bytes) <= transfer.data.len(),
        next_chunk(transfer, max_property_bytes).len() <= max_property_bytes,
        next_chunk(transfer, max_property_bytes).len() == 0 <==> transfer.offset
            == transfer.data.len(),
        transfer.data.take(transfer.offset as int) + next_chunk(transfer, max_property_bytes)
            == transfer.data.take(chunk_end(transfer, max_property_bytes) as int),
{
    assert(transfer.data.take(transfer.offset as int) + next_chunk(transfer, max_property_bytes)
        =~= transfer.data.take(chunk_end(transfer, max_property_bytes) as int));
}

/// After `count` chunks `count` times the size of a property was sent, or
/// everything.
pub proof fn law_chunks_sent(transfer: IncrView, max_property_bytes: nat, count: nat)
    requires
        transfer.offset == 0,
        max_property_bytes > 0,
    ensures
        ({
            let sent = after_chunks(transfer, max_property_bytes, count);
            &&& sent.data == transfer.data
            &&& sent.target == transfer.target
            &&& sent.offset == if count * max_property_bytes < transfer.data.len() {
                (count * max_property_bytes) as nat
            } else {
                transfer.data.len()
            }
        }),
    decreases count,
{
    if count > 0 {
        let earlier = (count - 1) as nat;
        law_chunks_sent(transfer, max_property_bytes, earlier);
        assert(count * max_property_bytes == earlier * max_property_bytes + max_property_bytes)
            by (nonlinear_arith)
            requires
                count == earlier + 1,
        ;
        assert(earlier * max_property_bytes >= 0) by (nonlinear_arith);
    } else {
        assert(0 * max_property_bytes == 0) by (nonlinear_arith);
    }
}

/// What the reader of the chunks holds after each of them.
proof fn lemma_chunks_received(transfer: IncrView, max_property_bytes: nat, count: nat)
    requires
        transfer.offset == 0,
        transfer.target != NONE,
        max_property_bytes > 0,
    ensures
        ({
            let found = chunks_found(transfer, max_property_bytes, count);
            &&& found.len() == count
            &&& chunk_bytes(found) == transfer.data.take(
                after_chunks(transfer, max_property_bytes, count).offset as int,
            )
            &&& !any_exceeded(found)
            &&& count > 0 ==> transfer_kind(found) == (transfer.target, 8u8)
            &&& count == 0 ==> transfer_kind(found) == (NONE, 0u8)
        }),
    decreases count,
{
    if count == 0 {
        assert(transfer.data.take(0) =~= seq![]);
    } else {
        let earlier = (count - 1) as nat;
        lemma_chunks_received(transfer, max_property_bytes, earlier);
        law_chunks_sent(transfer, max_property_bytes, earlier);
        let before = chunks_found(transfer, max_property_bytes, earlier);
        let found = chunks_found(transfer, max_property_bytes, count);
        assert(found.drop_last() =~= before);
        law_chunk_progress(
            after_chunks(transfer, max_property_bytes, earlier),
            max_property_bytes,
        );
        if any_exceeded(found) {
            let i: int = choose|i: int|
                0 <= i < found.len() && (#[trigger] found[i]).exceeded_limit;
            if i < before.len() {
                assert(before[i].exceeded_limit);
            }
        }
    }
}

/// A large transfer arrives as it was sent. Where the data, whose size was
/// announced, is within the reader's limit and `count` chunks are what it takes,
/// the reader accepts each chunk, none of them ends the transfer or exceeds what
/// remains of the limit, the chunk that follows is the empty one that ends it,
/// and the reader then has exactly the data of the sender.
pub proof fn law_incr_round_trip(
    data: Seq<u8>,
    target: u32,
    max_property_bytes: nat,
    size_limit: nat,
    count: nat,
)
    requires
        target != NONE,
        max_property_bytes > 0,
        0 < data.len() <= size_limit,
        (count - 1) * max_property_bytes < data.len() <= count * max_property_bytes,
    ensures
        ({
            let transfer = IncrView { data, offset: 0, target };
            let found = chunks_found(transfer, max_property_bytes, count);
            let reader = TransferView {
                size_limit,
                announced_too_much: data.len() > size_limit,
                chunks: found,
            };
            &&& forall|i: int|
                0 <= i < count ==> {
                    let earlier = TransferView { chunks: found.take(i), ..reader };
                    &&& !ends_transfer(#[trigger] found[i])
                    &&& !chunk_differs(earlier.chunks, found[i])
                    &&& found[i].data.len() <= earlier.remaining()
                }
            &&& next_chunk(
                after_chunks(transfer, max_property_bytes, count),
                max_property_bytes,
            ).len() == 0
            &&& reader.value() == (ValueView {
                type_: target,
                format: 8,
                data,
                exceeded_limit: false,
            })
        }),
{
    let transfer = IncrView { data, offset: 0, target };
    let found = chunks_found(transfer, max_property_bytes, count);
    let reader = TransferView {
        size_limit,
        announced_too_much: data.len() > size_limit,
        chunks: found,
    };
    assert(count > 0) by {
        if count == 0 {
            assert(0 * max_property_bytes == 0) by (nonlinear_arith);
        }
    }
    law_chunks_sent(transfer, max_property_bytes, count);
    lemma_chunks_received(transfer, max_property_bytes, count);
    assert(data.take(data.len() as int) =~= data);
    assert forall|i: int| 0 <= i < count implies {
        let earlier = TransferView { chunks: found.take(i), ..reader };
        &&& !ends_transfer(#[trigger] found[i])
        &&& !chunk_differs(earlier.chunks, found[i])
        &&& found[i].data.len() <= earlier.remaining()
    } by {
        let k = i as nat;
        let sent = after_chunks(transfer, max_property_bytes, k);
        lemma_chunk_at(transfer, max_property_bytes, count, k);
        lemma_chunks_received(transfer, max_property_bytes, k);
        law_chunks_sent(transfer, max_property_bytes, k);
        law_chunk_progress(sent, max_property_bytes);
        assert(k * max_property_bytes <= (count - 1) * max_property_bytes) by (nonlinear_arith)
            requires
                k <= count - 1,
                max_property_bytes > 0,
        ;
    }
}

/// The chunks found first stay what they are.
proof fn lemma_chunk_at(transfer: IncrView, max_property_bytes: nat, count: nat, k: nat)
    requires
        k < count,
    ensures
        chunks_found(transfer, max_property_bytes, count).len() == count,
        chunks_found(transfer, max_property_bytes, count).take(k as int) == chunks_found(
            transfer,
            max_property_bytes,
            k,
        ),
        chunks_found(transfer, max_property_bytes, count)[k as int] == (ValueView {
            type_: transfer.target,
            format: 8,
            data: next_chunk(after_chunks(transfer, max_property_bytes, k), max_property_bytes),
            exceeded_limit: false,
        }),
    decreases count,
{
    let found = chunks_found(transfer, max_property_bytes, count);
    let earlier = (count - 1) as nat;
    let before = chunks_found(transfer, max_property_bytes, earlier);
    lemma_chunks_len(transfer, max_property_bytes, earlier);
    if k < earlier {
        lemma_chunk_at(transfer, max_property_bytes, earlier, k);
        assert(found.take(k as int) =~= before.take(k as int));
    } else {
        assert(found.take(k as int) =~= before);
    }
}

proof fn lemma_chunks_len(transfer: IncrView, max_property_bytes: nat, count: nat)
    ensures
        chunks_found(transfer, max_property_bytes, count).len() == count,
    decreases count,
{
    if count > 0 {
        lemma_chunks_len(transfer, max_property_bytes, (count - 1) as nat);
    }
}

/// Every target that the bridge advertises is served with its data: at once
/// where the data fits into a property, else announced with its size. Only data
/// that is larger than the protocol can announce is refused.
pub proof fn law_advertised_targets_served(
    bridge: BridgeView,
    content: Seq<OfferView>,
    atoms: Seq<u32>,
    index: int,
)
    requires
        bridge.owned == Some(owned_selection(content, atoms)),
        is_x11_target_list(content, x11_target_list(content)),
        atoms.len() == x11_target_list(content).len(),
        atoms.no_duplicates(),
        !atoms.contains(bridge.atoms.targets),
        0 <= index < atoms.len(),
        content.len() <= usize::MAX,
    ensures
        served(bridge, bridge.atoms.targets) == Ok::<WriteView, RequestError>(
            WriteView::Targets(seq![bridge.atoms.targets] + atoms),
        ),
        ({
            let data = content[x11_target_list(content)[index].1].data;
            served(bridge, atoms[index]) == if data.len() <= bridge.max_property_bytes {
                Ok::<WriteView, RequestError>(WriteView::Data(data))
            } else if data.len() <= u32::MAX {
                Ok(WriteView::Incremental(data, data.len() as u32))
            } else {
                Err(RequestError::TooLarge)
            }
        }),
{
    let targets = owned_selection(content, atoms).targets;
    assert(target_atoms(targets) =~= atoms);
    assert(atoms.contains(atoms[index]));
    let list = x11_target_list(content);
    assert(serves_x11_target(content, list[index].0, list[index].1));
    lemma_find_target(targets, index);
}

proof fn lemma_find_target(targets: Seq<OwnedTarget>, index: int)
    requires
        0 <= index < targets.len(),
        forall|i: int|
            0 <= i < index ==> (#[trigger] targets[i]).atom != targets[index].atom,
    ensures
        find_target(targets, targets[index].atom) == Some(targets[index]),
    decreases index,
{
    if index > 0 {
        let rest = targets.drop_first();
        assert(targets[0].atom != targets[index].atom);
        assert forall|i: int| 0 <= i < index - 1 implies (#[trigger] rest[i]).atom
            != rest[index - 1].atom by {
            assert(rest[i] == targets[i + 1]);
        }
        lemma_find_target(rest, index - 1);
    }
}

/// A target that is not advertised is refused, and so is every request once the
/// selection is lost.
pub proof fn law_other_targets_refused(bridge: BridgeView, target: u32)
    requires
        target != bridge.atoms.targets,
        bridge.owned matches Some(owned) ==> !target_atoms(owned.targets).contains(target),
    ensures
        served(bridge, target) == (if bridge.owned is Some {
            Err::<WriteView, RequestError>(RequestError::NotOffered)
        } else {
            Err(RequestError::NotOwned)
        }),
{
    if let Some(owned) = bridge.owned {
        lemma_target_absent(owned.targets, target);
    }
}

proof fn lemma_target_absent(targets: Seq<OwnedTarget>, target: u32)
    requires
        !target_atoms(targets).contains(target),
    ensures
        find_target(targets, target) is None,
    decreases targets.len(),
{
    if targets.len() > 0 {
        let atoms = target_atoms(targets);
        assert(atoms[0] == targets[0].atom);
        let rest = targets.drop_first();
        assert(!target_atoms(rest).contains(target)) by {
            if target_atoms(rest).contains(target) {
                let i: int = choose|i: int|
                    0 <= i < target_atoms(rest).len() && target_atoms(rest)[i] == target;
                assert(atoms[i + 1] == target);
            }
        }
        lemma_target_absent(rest, target);
    }
}

/// While the bridge owns the selection, every request that names a property and
/// asks for the list of targets or for an advertised target is answered with
/// a write, whatever its time, its requestor and its selection are: the list
/// with all targets, or the data that is found under the name of the target (for
/// `UTF8_STRING` where there is none, the UTF-8 text), at once or announced with
/// its size. Only data that is larger than the protocol can announce is refused.
pub proof fn law_requests_are_answered(
    bridge: BridgeView,
    content: Seq<OfferView>,
    atoms: Seq<u32>,
    request: SelectionRequest,
    step: RequestStep,
    index: int,
)
    requires
        bridge.owned == Some(owned_selection(content, atoms)),
        strictly_ordered(content),
        is_x11_target_list(content, x11_target_list(content)),
        atoms.len() == x11_target_list(content).len(),
        atoms.no_duplicates(),
        !atoms.contains(bridge.atoms.targets),
        content.len() <= usize::MAX,
        request.property != NONE,
        request_step_of(bridge, request, step),
    ensures
        request.target == bridge.atoms.targets ==> step is Write && step->Write_0@
            == WriteView::Targets(seq![bridge.atoms.targets] + atoms),
        0 <= index < atoms.len() && atoms[index] == request.target ==> {
            let name = x11_target_list(content)[index].0;
            let found = if lookup(content, name) is Some {
                lookup(content, name)
            } else {
                lookup(content, "text/plain;charset=utf-8"@)
            };
            &&& found is Some
            &&& found->0.len() <= bridge.max_property_bytes ==> step is Write && step->Write_0@
                == WriteView::Data(found->0)
            &&& bridge.max_property_bytes < found->0.len() <= u32::MAX ==> step is Write
                && step->Write_0@ is Incremental && step->Write_0@->Incremental_0 == found->0
                && step->Write_0@->Incremental_1 == found->0.len()
            &&& found->0.len() > bridge.max_property_bytes && found->0.len() > u32::MAX
                ==> step is Refuse && step->Refuse_0 is TooLarge
        },
{
    if 0 <= index < atoms.len() {
        law_advertised_targets_served(bridge, content, atoms, index);
        law_x11_target_data(content, x11_target_list(content), index);
    } else {
        let targets = owned_selection(content, atoms).targets;
        assert(target_atoms(targets) =~= atoms);
    }
}

/// A request is refused only for a reason: the selection is not owned, the
/// target is not advertised, or its data cannot be announced. The refusal is an
/// answer to this request without a property. A request that names no property
/// is answered without one.
pub proof fn law_requests_are_refused_for_a_reason(
    bridge: BridgeView,
    request: SelectionRequest,
    step: RequestStep,
)
    requires
        request_step_of(bridge, request, step),
    ensures
        step is Notify <==> request.property == NONE,
        step matches RequestStep::Notify(notify) ==> {
            &&& notify.property == NONE
            &&& notify.time == request.time
            &&& notify.requestor == request.requestor
            &&& notify.selection == request.selection
            &&& notify.target == request.target
        },
        step matches RequestStep::Refuse(error, notify) ==> {
            &&& notify.property == NONE
            &&& notify.time == request.time
            &&& notify.requestor == request.requestor
            &&& notify.selection == request.selection
            &&& notify.target == request.target
            &&& (error is NotOwned <==> bridge.owned is None)
            &&& error is NotOffered ==> request.target != bridge.atoms.targets && forall|i: int|
                0 <= i < bridge.owned->0.targets.len() ==> (
                #[trigger] bridge.owned->0.targets[i]).atom != request.target
        },
        bridge.owned is None && request.property != NONE ==> step is Refuse,
        bridge.owned is Some && request.property != NONE && request.target != bridge.atoms.targets
            && (forall|i: int|
            0 <= i < bridge.owned->0.targets.len() ==> (#[trigger] bridge.owned->0.targets[i]).atom
                != request.target) ==> step is Refuse && step->Refuse_0 is NotOffered,
{
    if let Some(owned) = bridge.owned {
        lemma_target_found(owned.targets, request.target);
    }
}

proof fn lemma_target_found(targets: Seq<OwnedTarget>, atom: u32)
    ensures
        find_target(targets, atom) is None <==> forall|i: int|
            0 <= i < targets.len() ==> (#[trigger] targets[i]).atom != atom,
    decreases targets.len(),
{
    if targets.len() > 0 && targets[0].atom != atom {
        let rest = targets.drop_first();
        lemma_target_found(rest, atom);
        if find_target(rest, atom) is None {
            assert forall|i: int| 0 <= i < targets.len() implies (#[trigger] targets[i]).atom
                != atom by {
                if i > 0 {
                    assert(rest[i - 1] == targets[i]);
                }
            }
        } else {
            let i: int = choose|i: int| 0 <= i < rest.len() && (#[trigger] rest[i]).atom == atom;
            assert(targets[i + 1].atom == atom);
        }
    }
}

/// What a request is answered with depends on its target alone: two requests for
/// one target that name a property, whoever makes them and whenever, are answered
/// with the same write or refused for the same reason.
pub proof fn law_answer_depends_on_target(
    bridge: BridgeView,
    first: SelectionRequest,
    first_step: RequestStep,
    second: SelectionRequest,
    second_step: RequestStep,
)
    requires
        request_step_of(bridge, first, first_step),
        request_step_of(bridge, second, second_step),
        first.target == second.target,
        first.property != NONE,
        second.property != NONE,
    ensures
        first_step is Write <==> second_step is Write,
        first_step is Write ==> first_step->Write_0@ == second_step->Write_0@,
        first_step is Refuse <==> second_step is Refuse,
        first_step is Refuse ==> first_step->Refuse_0 == second_step->Refuse_0,
{
}

/// Where a transfer is after some of its chunks.
proof fn lemma_chunks_handed_out(
    bridge: BridgeView,
    request: SelectionRequest,
    data: Seq<u8>,
    size: u32,
    befores: Seq<BridgeView>,
    chunks: Seq<IncrChunk>,
    outcomes: Seq<ChunkOutcome>,
    mids: Seq<BridgeView>,
    afters: Seq<BridgeView>,
    count: nat,
)
    requires
        hands_out(bridge, request, data, size, befores, chunks, outcomes, mids, afters),
        bridge.max_property_bytes > 0,
        count <= chunks.len(),
    ensures
        ({
            let place = (request.requestor, request.property);
            let parts = Seq::new(count, |k: int| chunks[k]@.bytes());
            let sent = parts.flatten();
            &&& sent.len() <= data.len()
            &&& sent == data.take(sent.len() as int)
            &&& count < chunks.len() ==> {
                &&& befores[count as int].transfers.contains_key(place)
                &&& befores[count as int].transfers[place] == (IncrView {
                    data,
                    offset: sent.len(),
                    target: request.target,
                })
            }
        }),
    decreases count,
{
    let place = (request.requestor, request.property);
    let parts = Seq::new(count, |k: int| chunks[k]@.bytes());
    if count == 0 {
        assert(parts.flatten() =~= seq![]);
        assert(data.take(0) =~= seq![]);
    } else {
        let k = count - 1;
        lemma_chunks_handed_out(
            bridge,
            request,
            data,
            size,
            befores,
            chunks,
            outcomes,
            mids,
            afters,
            k as nat,
        );
        let earlier = Seq::new(k as nat, |k: int| chunks[k]@.bytes());
        let before = befores[k].transfers[place];
        assert(advanced(befores[k], place.0, place.1, Some(chunks[k]), mids[k]));
        assert(chunk_written(mids[k], chunks[k]@, outcomes[k], afters[k]));
        law_chunk_progress(before, bridge.max_property_bytes);
        assert(chunks[k]@.bytes() == next_chunk(before, bridge.max_property_bytes));
        assert(parts =~= earlier.push(chunks[k]@.bytes()));
        earlier.lemma_flatten_push(chunks[k]@.bytes());
        let sent = parts.flatten();
        assert(sent.len() == chunk_end(before, bridge.max_property_bytes));
        if count < chunks.len() {
            let c = count as int;
            assert(advanced(befores[c], place.0, place.1, Some(chunks[c]), mids[c]));
            assert(befores[c].transfers.contains_key(place));
            assert(afters[k].transfers.contains_key(place));
            assert(chunks[k]@.transfer.offset != chunks[k]@.end);
            assert(befores[c].transfers[place] =~= IncrView {
                data,
                offset: sent.len(),
                target: request.target,
            });
        }
    }
}

/// Whether the bridge, once it has written the announcement of `data` for
/// `request`, hands out `chunks` one after the other for the deletions of the
/// property of the request. `befores` and `afters` are the bridge when each
/// chunk is asked for and when it was written; what happens in between leaves
/// the transfer alone.
pub open spec fn hands_out(
    bridge: BridgeView,
    request: SelectionRequest,
    data: Seq<u8>,
    size: u32,
    befores: Seq<BridgeView>,
    chunks: Seq<IncrChunk>,
    outcomes: Seq<ChunkOutcome>,
    mids: Seq<BridgeView>,
    afters: Seq<BridgeView>,
) -> bool {
    let place = (request.requestor, request.property);
    let start = after_write(bridge, request, WriteView::Incremental(data, size), true);
    &&& befores.len() == chunks.len()
    &&& mids.len() == chunks.len()
    &&& afters.len() == chunks.len()
    &&& outcomes.len() == chunks.len()
    &&& chunks.len() > 0 ==> {
        &&& befores[0].transfers.contains_key(place) == start.transfers.contains_key(place)
        &&& befores[0].transfers[place] == start.transfers[place]
    }
    &&& forall|k: int|
        #![trigger chunks[k]]
        0 <= k < chunks.len() ==> {
            &&& befores[k].max_property_bytes == bridge.max_property_bytes
            &&& advanced(befores[k], place.0, place.1, Some(chunks[k]), mids[k])
            &&& chunk_written(mids[k], chunks[k]@, outcomes[k], afters[k])
        }
    &&& forall|k: int|
        #![trigger chunks[k]]
        0 < k < chunks.len() ==> {
            &&& befores[k].transfers.contains_key(place) == afters[k - 1].transfers.contains_key(
                place,
            )
            &&& befores[k].transfers[place] == afters[k - 1].transfers[place]
        }
}

/// Once the announcement of data was written for a request, the chunks that the
/// bridge hands out for the deletions of the property of that request are the
/// data from its first byte on, one after the other, each of them in the type of
/// the target and no larger than a property may be. A chunk is empty only when
/// everything was sent, and that one ends the transfer: up to it the chunks
/// joined are exactly the announced data.
pub proof fn law_announced_data_is_handed_out(
    bridge: BridgeView,
    request: SelectionRequest,
    data: Seq<u8>,
    size: u32,
    befores: Seq<BridgeView>,
    chunks: Seq<IncrChunk>,
    outcomes: Seq<ChunkOutcome>,
    mids: Seq<BridgeView>,
    afters: Seq<BridgeView>,
    count: int,
)
    requires
        hands_out(bridge, request, data, size, befores, chunks, outcomes, mids, afters),
        bridge.max_property_bytes > 0,
        0 <= count < chunks.len(),
    ensures
        ({
            let place = (request.requestor, request.property);
            let sent = Seq::new(count as nat, |k: int| chunks[k]@.bytes()).flatten();
            let bytes = chunks[count]@.bytes();
            &&& sent + bytes == data.take((sent.len() + bytes.len()) as int)
            &&& sent.len() + bytes.len() <= data.len()
            &&& bytes.len() <= bridge.max_property_bytes
            &&& bytes.len() < bridge.max_property_bytes ==> sent + bytes == data
            &&& bytes.len() == 0 <==> sent == data
            &&& chunks[count]@.window == request.requestor
            &&& chunks[count]@.atom == request.property
            &&& chunks[count]@.transfer.target == request.target
            &&& (outcomes[count] is Continues <==> bytes.len() > 0)
            &&& (afters[count].transfers.contains_key(place) <==> bytes.len() > 0)
        }),
{
    let place = (request.requestor, request.property);
    lemma_chunks_handed_out(
        bridge,
        request,
        data,
        size,
        befores,
        chunks,
        outcomes,
        mids,
        afters,
        count as nat,
    );
    let before = befores[count].transfers[place];
    let sent = Seq::new(count as nat, |k: int| chunks[k]@.bytes()).flatten();
    let bytes = chunks[count]@.bytes();
    assert(advanced(befores[count], place.0, place.1, Some(chunks[count]), mids[count]));
    assert(chunk_written(mids[count], chunks[count]@, outcomes[count], afters[count]));
    law_chunk_progress(before, bridge.max_property_bytes);
    assert(bytes == next_chunk(before, bridge.max_property_bytes));
    assert(data.take(data.len() as int) =~= data);
    if sent == data {
        assert(before.offset == data.len());
    }
}

/// The window of a requestor is let go exactly when no other transfer to it is
/// under way.
pub proof fn law_window_is_watched_while_needed(
    before: BridgeView,
    chunk: IncrChunk,
    outcome: ChunkOutcome,
    after: BridgeView,
)
    requires
        chunk_written(before, chunk@, outcome, after),
        chunk@.transfer.offset == chunk@.end,
    ensures
        outcome is CompleteLast <==> forall|atom: u32|
            !(#[trigger] before.transfers.contains_key((chunk@.window, atom))),
        outcome is Complete <==> !(outcome is CompleteLast),
{
}

/// Large content arrives as it is, from the bridge that offers it to a client
/// that requests it: where the announced data is within the limit of the client,
/// and the client reads each chunk that the bridge hands out, in whatever
/// pieces, the target that it completes holds exactly that data and is not
/// marked.
pub proof fn law_large_content_arrives(
    bridge: BridgeView,
    request: SelectionRequest,
    data: Seq<u8>,
    size: u32,
    befores: Seq<BridgeView>,
    chunks: Seq<IncrChunk>,
    outcomes: Seq<ChunkOutcome>,
    mids: Seq<BridgeView>,
    afters: Seq<BridgeView>,
    order: ByteOrder,
    readers: Seq<RequestView>,
    deliveries: Seq<Seq<ReplyView>>,
    ending: Seq<ReplyView>,
    result: Result<RequestProgress, TargetError>,
)
    requires
        hands_out(bridge, request, data, size, befores, chunks, outcomes, mids, afters),
        bridge.max_property_bytes > 0,
        chunks.len() == deliveries.len() + 1,
        readers.len() == deliveries.len() + 1,
        readers[0].transfer is Some,
        readers[0].transfer->0.chunks.len() == 0,
        !readers[0].transfer->0.announced_too_much,
        data.len() <= readers[0].transfer->0.size_limit,
        forall|k: int|
            0 <= k < deliveries.len() ==> (#[trigger] deliveries[k]).len() > 0 && chunk_delivered(
                order,
                readers[k],
                deliveries[k],
                readers[k + 1],
            ),
        forall|k: int| 0 <= k < readers.len() ==> (#[trigger] readers[k]).read_limit() >= 0,
        forall|k: int|
            0 <= k < deliveries.len() ==> Seq::new(
                (#[trigger] deliveries[k]).len(),
                |i: int| deliveries[k][i].value,
            ).flatten() == chunks[k]@.bytes(),
        ending.len() > 0,
        Seq::new(ending.len(), |i: int| ending[i].value).flatten() == chunks.last()@.bytes(),
        reply_taken(
            order,
            ReadingView { request: readers.last(), replies: ending.drop_last() },
            ending.last(),
            result,
        ),
        result is Ok && result->Ok_0 is Complete,
    ensures
        !result->Ok_0->Complete_0@.exceeded_limit,
        result->Ok_0->Complete_0@.data == data,
{
    let count = deliveries.len() as int;
    law_announced_data_is_handed_out(
        bridge,
        request,
        data,
        size,
        befores,
        chunks,
        outcomes,
        mids,
        afters,
        count,
    );
    law_incremental_target_is_whole(order, readers, deliveries, ending, result);
    let values = Seq::new(ending.len(), |i: int| ending[i].value);
    lemma_flatten_of_empty(values);
    let sent = Seq::new(count as nat, |k: int| chunks[k]@.bytes());
    let parts = Seq::new(
        deliveries.len(),
        |k: int| Seq::new(deliveries[k].len(), |i: int| deliveries[k][i].value).flatten(),
    );
    assert(parts =~= sent) by {
        assert forall|k: int| 0 <= k < parts.len() implies parts[k] == sent[k] by {
            assert(Seq::new(deliveries[k].len(), |i: int| deliveries[k][i].value).flatten()
                == chunks[k]@.bytes());
        }
    }
    assert(bytes_delivered(deliveries) == sent.flatten());
}

proof fn lemma_flatten_of_empty(values: Seq<Seq<u8>>)
    requires
        forall|i: int| 0 <= i < values.len() ==> (#[trigger] values[i]).len() == 0,
    ensures
        values.flatten().len() == 0,
    decreases values.len(),
{
    if values.len() > 0 {
        let rest = values.drop_first();
        assert forall|i: int| 0 <= i < rest.len() implies (#[trigger] rest[i]).len() == 0 by {
            assert(rest[i] == values[i + 1]);
        }
        lemma_flatten_of_empty(rest);
    }
}

/// Content that the bridge was told to offer is what requests are answered with
/// from then on, whatever the bridge did before.
pub proof fn law_offered_content_is_served(
    before: BridgeView,
    content: Seq<OfferView>,
    atoms: Seq<u32>,
    request: SelectionRequest,
    step: RequestStep,
    index: int,
)
    requires
        strictly_ordered(content),
        is_x11_target_list(content, x11_target_list(content)),
        atoms.len() == x11_target_list(content).len(),
        atoms.no_duplicates(),
        !atoms.contains(before.atoms.targets),
        content.len() <= usize::MAX,
        0 <= index < atoms.len(),
        request.property != NONE,
        request.target == atoms[index],
        request_step_of(offering(before, content, atoms), request, step),
        lookup(content, x11_target_list(content)[index].0) is Some,
        lookup(content, x11_target_list(content)[index].0)->0.len() <= u32::MAX,
    ensures
        step is Write,
        step->Write_0@ is Data || step->Write_0@ is Incremental,
        step->Write_0@ matches WriteView::Data(data) ==> Some(data) == lookup(
            content,
            x11_target_list(content)[index].0,
        ),
        step->Write_0@ matches WriteView::Incremental(data, size) ==> Some(data) == lookup(
            content,
            x11_target_list(content)[index].0,
        ) && size == data.len(),
{
    law_requests_are_answered(
        offering(before, content, atoms),
        content,
        atoms,
        request,
        step,
        index,
    );
}

} // verus!
