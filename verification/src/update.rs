//! Updates over the air: on a message, a firmware image is fetched over HTTP, written into the
//! slot that is not running and selected for the next boot.

use crate::message::MESSAGE_CAPACITY;
use crate::partitions::{
    apart, app_record, first_where, lemma_target_is_apart_from_running, of_kind, record_len,
    record_offset, without_overlap, PartitionKind,
};
use crate::slot::{ImageState, Slot};
use vstd::prelude::*;

verus! {

/// Where the firmware image is fetched from.
pub const IMAGE_URL: &'static str = "http://192.168.10.1/firmware";

/// The largest number of bytes of an image that are read at once.
pub const CHUNK_CAPACITY: usize = 4096;

/// What an HTTP request wants of its target.
#[derive(Clone, Copy, Debug, PartialEq, Eq, Structural)]
pub enum Method {
    /// To be sent what it holds.
    Get,
}

/// The HTTP request by which an image is asked for.
#[derive(Clone, Copy, Debug)]
pub struct ImageRequest {
    /// What is wanted of the target.
    pub method: Method,
    /// The target.
    pub url: &'static str,
}

impl ImageRequest {
    /// The method and the target of the request.
    pub open spec fn line(self) -> (Method, Seq<char>) {
        (self.method, self.url@)
    }
}

/// What is to be done next.
#[derive(Clone, Copy, Debug, PartialEq, Eq, Structural)]
pub enum UpdateStep {
    /// Read the partition table, and from the OTA-data partition which slot is selected.
    ReadSlot,
    /// Read the state of the image in the selected slot.
    ReadImageState { current: Slot },
    /// Give the image in the selected slot a state.
    ConfirmImage { current: Slot, state: ImageState },
    /// Find the partition of the slot that takes the next image.
    LocateTarget { slot: Slot },
    /// Wait for a message that asks for an update.
    AwaitTrigger { slot: Slot },
    /// Ask for the image, with the request that `image_request` gives.
    RequestImage { slot: Slot },
    /// Read the next bytes of the image, of which `offset` have been written.
    ReadChunk { slot: Slot, image_len: usize, offset: u32 },
    /// Write the `len` bytes that were read at `offset` into the partition.
    WriteChunk { slot: Slot, image_len: usize, offset: u32, len: usize },
    /// Select a slot for the next boot.
    SelectSlot { slot: Slot },
    /// Give the image in the slot that was selected a state.
    MarkImage { slot: Slot, state: ImageState },
    /// Restart the device. Nothing comes after this.
    Restart,
}

/// What came of a step.
pub enum UpdateEvent {
    /// The step was carried out.
    Done,
    /// This slot is selected.
    Selected { slot: Slot },
    /// The image is in this state.
    Image { state: ImageState },
    /// A message asks for an update.
    Trigger { message: heapless::String<MESSAGE_CAPACITY> },
    /// The server answered.
    Response { status: u16, content_length: Option<usize> },
    /// This many bytes of the image were read.
    Chunk { len: usize },
    /// The image could not be read any further.
    ReadFailed,
}

/// Whether an HTTP status says that the request succeeded.
pub open spec fn success(status: u16) -> bool {
    200 <= status <= 299
}

/// Calls `reqwless::response::StatusCode::is_successful`, of which it is claimed that it holds
/// of the codes 200 to 299 and of no others.
#[verifier::external_body]
fn is_successful(status: u16) -> (successful: bool)
    ensures
        successful == success(status),
{
    reqwless::response::StatusCode(status).is_successful()
}

impl UpdateStep {
    /// Whether the event can come of this step. A chunk is never longer than the buffer that it
    /// is read into, and the bytes that were read can be counted with 32 bits.
    pub open spec fn allows(self, event: UpdateEvent) -> bool {
        match self {
            UpdateStep::ReadSlot => event is Selected,
            UpdateStep::ReadImageState { .. } => event is Image,
            UpdateStep::AwaitTrigger { .. } => event is Trigger,
            UpdateStep::RequestImage { .. } => event is Response,
            UpdateStep::ReadChunk { offset, .. } => match event {
                UpdateEvent::Chunk { len } => len <= CHUNK_CAPACITY && offset + len <= u32::MAX,
                _ => event is ReadFailed,
            },
            UpdateStep::WriteChunk { offset, len, .. } => event is Done && offset + len <= u32::MAX,
            UpdateStep::Restart => false,
            _ => event is Done,
        }
    }

    /// The step after this one.
    pub open spec fn followed_by(self, event: UpdateEvent) -> UpdateStep {
        match (self, event) {
            (UpdateStep::ReadSlot, UpdateEvent::Selected { slot }) => if slot is Unselected {
                UpdateStep::LocateTarget { slot: slot.following() }
            } else {
                UpdateStep::ReadImageState { current: slot }
            },
            (UpdateStep::ReadImageState { current }, UpdateEvent::Image { state }) =>
                if state.is_unconfirmed() {
                    UpdateStep::ConfirmImage { current, state: ImageState::Valid }
                } else {
                    UpdateStep::LocateTarget { slot: current.following() }
                },
            (UpdateStep::ConfirmImage { current, .. }, _) => UpdateStep::LocateTarget {
                slot: current.following(),
            },
            (UpdateStep::LocateTarget { slot }, _) => UpdateStep::AwaitTrigger { slot },
            (UpdateStep::AwaitTrigger { slot }, _) => UpdateStep::RequestImage { slot },
            (
                UpdateStep::RequestImage { slot },
                UpdateEvent::Response { status, content_length: Some(image_len) },
            ) if success(status) => UpdateStep::ReadChunk { slot, image_len, offset: 0 },
            (UpdateStep::ReadChunk { slot, image_len, offset }, UpdateEvent::Chunk { len }) =>
                UpdateStep::WriteChunk { slot, image_len, offset, len },
            (UpdateStep::ReadChunk { slot, .. }, _) => UpdateStep::SelectSlot { slot },
            (UpdateStep::WriteChunk { slot, image_len, offset, len }, _) => if offset + len
                == image_len {
                UpdateStep::SelectSlot { slot }
            } else {
                UpdateStep::ReadChunk { slot, image_len, offset: (offset + len) as u32 }
            },
            (UpdateStep::SelectSlot { slot }, _) => UpdateStep::MarkImage {
                slot,
                state: ImageState::New,
            },
            (UpdateStep::MarkImage { .. }, _) => UpdateStep::Restart,
            _ => UpdateStep::ReadSlot,
        }
    }

    /// The slot that the next image is meant for, once that is known.
    pub open spec fn target(self) -> Option<Slot> {
        match self {
            UpdateStep::LocateTarget { slot } => Some(slot),
            UpdateStep::AwaitTrigger { slot } => Some(slot),
            UpdateStep::RequestImage { slot } => Some(slot),
            UpdateStep::ReadChunk { slot, .. } => Some(slot),
            UpdateStep::WriteChunk { slot, .. } => Some(slot),
            UpdateStep::SelectSlot { slot } => Some(slot),
            UpdateStep::MarkImage { slot, .. } => Some(slot),
            _ => None,
        }
    }

    /// The method and the target of the HTTP request that this step makes, if it makes one.
    pub open spec fn request_line(self) -> Option<(Method, Seq<char>)> {
        if self is RequestImage {
            Some((Method::Get, IMAGE_URL@))
        } else {
            None
        }
    }

    /// Whether an image has been offered by the server and is being installed.
    pub open spec fn installing(self) -> bool {
        self is ReadChunk || self is WriteChunk || self is SelectSlot || self is MarkImage
            || self is Restart
    }

    /// The step that everything begins with.
    pub fn new() -> (step: UpdateStep)
        ensures
            step == UpdateStep::ReadSlot,
    {
        UpdateStep::ReadSlot
    }

    /// The HTTP request that this step makes, if it makes one.
    pub fn image_request(&self) -> (request: Option<ImageRequest>)
        ensures
            request is Some <==> self is RequestImage,
            request matches Some(request) ==> Some(request.line()) == self.request_line(),
            request matches Some(request) ==> request.method == Method::Get && request.url@
                == "http://192.168.10.1/firmware"@,
    {
        match self {
            UpdateStep::RequestImage { .. } => Some(
                ImageRequest { method: Method::Get, url: IMAGE_URL },
            ),
            _ => None,
        }
    }

    /// Whether the event can come of this step.
    pub fn accepts(&self, event: &UpdateEvent) -> (accepts: bool)
        ensures
            accepts == self.allows(*event),
    {
        match (self, event) {
            (UpdateStep::ReadSlot, UpdateEvent::Selected { .. }) => true,
            (UpdateStep::ReadImageState { .. }, UpdateEvent::Image { .. }) => true,
            (UpdateStep::ConfirmImage { .. }, UpdateEvent::Done) => true,
            (UpdateStep::LocateTarget { .. }, UpdateEvent::Done) => true,
            (UpdateStep::AwaitTrigger { .. }, UpdateEvent::Trigger { .. }) => true,
            (UpdateStep::RequestImage { .. }, UpdateEvent::Response { .. }) => true,
            (UpdateStep::ReadChunk { offset, .. }, UpdateEvent::Chunk { len }) => *len
                <= CHUNK_CAPACITY && *len as u32 <= u32::MAX - *offset,
            (UpdateStep::ReadChunk { .. }, UpdateEvent::ReadFailed) => true,
            (UpdateStep::WriteChunk { offset, len, .. }, UpdateEvent::Done) => *len as u64
                <= (u32::MAX - *offset) as u64,
            (UpdateStep::SelectSlot { .. }, UpdateEvent::Done) => true,
            (UpdateStep::MarkImage { .. }, UpdateEvent::Done) => true,
            (_, _) => false,
        }
    }

    /// The step after this one.
    pub fn after(self, event: UpdateEvent) -> (step: UpdateStep)
        requires
            self.allows(event),
        ensures
            step == self.followed_by(event),
    {
        match self {
            UpdateStep::ReadSlot => match event {
                UpdateEvent::Selected { slot } => after_slot(slot),
                _ => UpdateStep::ReadSlot,
            },
            UpdateStep::ReadImageState { current } => match event {
                UpdateEvent::Image { state } => after_image_state(current, state),
                _ => UpdateStep::ReadSlot,
            },
            UpdateStep::ConfirmImage { current, .. } => UpdateStep::LocateTarget {
                slot: current.next(),
            },
            UpdateStep::LocateTarget { slot } => UpdateStep::AwaitTrigger { slot },
            UpdateStep::AwaitTrigger { slot } => UpdateStep::RequestImage { slot },
            UpdateStep::RequestImage { slot } => match event {
                UpdateEvent::Response { status, content_length } => after_response(
                    slot,
                    status,
                    content_length,
                ),
                _ => UpdateStep::ReadSlot,
            },
            UpdateStep::ReadChunk { slot, image_len, offset } => match event {
                UpdateEvent::Chunk { len } => UpdateStep::WriteChunk { slot, image_len, offset, len },
                _ => UpdateStep::SelectSlot { slot },
            },
            UpdateStep::WriteChunk { slot, image_len, offset, len } => {
                let offset: u32 = offset + len as u32;
                if offset as u64 == image_len as u64 {
                    UpdateStep::SelectSlot { slot }
                } else {
                    UpdateStep::ReadChunk { slot, image_len, offset }
                }
            },
            UpdateStep::SelectSlot { slot } => UpdateStep::MarkImage { slot, state: ImageState::New },
            UpdateStep::MarkImage { .. } => UpdateStep::Restart,
            UpdateStep::Restart => UpdateStep::ReadSlot,
        }
    }
}

fn after_slot(slot: Slot) -> (step: UpdateStep)
    ensures
        step == UpdateStep::ReadSlot.followed_by(UpdateEvent::Selected { slot }),
{
    if slot != Slot::Unselected {
        UpdateStep::ReadImageState { current: slot }
    } else {
        UpdateStep::LocateTarget { slot: slot.next() }
    }
}

fn after_image_state(current: Slot, state: ImageState) -> (step: UpdateStep)
    ensures
        step == (UpdateStep::ReadImageState { current }).followed_by(UpdateEvent::Image { state }),
{
    if state.unconfirmed() {
        UpdateStep::ConfirmImage { current, state: ImageState::Valid }
    } else {
        UpdateStep::LocateTarget { slot: current.next() }
    }
}

fn after_response(slot: Slot, status: u16, content_length: Option<usize>) -> (step: UpdateStep)
    ensures
        step == (UpdateStep::RequestImage { slot }).followed_by(
            (UpdateEvent::Response { status, content_length }),
        ),
{
    if !is_successful(status) {
        return UpdateStep::ReadSlot;
    }
    match content_length {
        Some(image_len) => UpdateStep::ReadChunk { slot, image_len, offset: 0 },
        None => UpdateStep::ReadSlot,
    }
}

/// The step that is reached through the events, from the first step on.
pub open spec fn reached(events: Seq<UpdateEvent>) -> UpdateStep
    decreases events.len(),
{
    if events.len() == 0 {
        UpdateStep::ReadSlot
    } else {
        reached(events.drop_last()).followed_by(events.last())
    }
}

/// Whether the events can come one after the other, from the first step on.
pub open spec fn possible(events: Seq<UpdateEvent>) -> bool
    decreases events.len(),
{
    events.len() > 0 ==> possible(events.drop_last()) && reached(events.drop_last()).allows(
        events.last(),
    )
}

/// The slot that was selected when it was last read.
pub open spec fn selected_slot(events: Seq<UpdateEvent>) -> Option<Slot>
    decreases events.len(),
{
    if events.len() == 0 {
        None
    } else {
        match events.last() {
            UpdateEvent::Selected { slot } => Some(slot),
            _ => selected_slot(events.drop_last()),
        }
    }
}

/// Whether a message asked for an update since the selected slot was last read.
pub open spec fn triggered(events: Seq<UpdateEvent>) -> bool
    decreases events.len(),
{
    events.len() > 0 && match events.last() {
        UpdateEvent::Selected { .. } => false,
        UpdateEvent::Trigger { .. } => true,
        _ => triggered(events.drop_last()),
    }
}

/// How many messages asked for an update.
pub open spec fn messages_received(events: Seq<UpdateEvent>) -> nat
    decreases events.len(),
{
    if events.len() == 0 {
        0
    } else if events.last() is Trigger {
        messages_received(events.drop_last()) + 1
    } else {
        messages_received(events.drop_last())
    }
}

/// The HTTP requests that the steps along the events make.
pub open spec fn requests(events: Seq<UpdateEvent>) -> Seq<(Method, Seq<char>)>
    decreases events.len(),
{
    if events.len() == 0 {
        Seq::empty()
    } else {
        match reached(events).request_line() {
            Some(line) => requests(events.drop_last()).push(line),
            None => requests(events.drop_last()),
        }
    }
}

/// The length of the image that the server offered with its last answer, if it offered one.
pub open spec fn offered_len(events: Seq<UpdateEvent>) -> Option<usize>
    decreases events.len(),
{
    if events.len() == 0 {
        None
    } else {
        match events.last() {
            UpdateEvent::Response { status, content_length } => if success(status) {
                content_length
            } else {
                None
            },
            _ => offered_len(events.drop_last()),
        }
    }
}

/// The number of bytes that were read since the last answer of the server.
pub open spec fn received_len(events: Seq<UpdateEvent>) -> nat
    decreases events.len(),
{
    if events.len() == 0 {
        0
    } else {
        match events.last() {
            UpdateEvent::Response { .. } => 0,
            UpdateEvent::Chunk { len } => received_len(events.drop_last()) + len as nat,
            _ => received_len(events.drop_last()),
        }
    }
}

/// An image is meant for the slot after the selected one, which is never the selected one
/// itself.
pub proof fn lemma_target_follows_selected_slot(events: Seq<UpdateEvent>)
    requires
        possible(events),
    ensures
        reached(events).target() matches Some(slot) ==> (selected_slot(events) matches Some(current)
            && slot == current.following() && slot != current && slot != Slot::Unselected),
        reached(events) matches UpdateStep::ReadImageState { current } ==> selected_slot(events)
            == Some(current),
        reached(events) matches UpdateStep::ConfirmImage { current, .. } ==> selected_slot(events)
            == Some(current),
    decreases events.len(),
{
    if events.len() > 0 {
        lemma_target_follows_selected_slot(events.drop_last());
    }
}

/// While an image is meant for a slot, the partition of that slot and the one of the running
/// application have no byte of the flash in common, and what is written within the one leaves
/// every byte of the other as it was. This holds of every table whose partitions do not overlap,
/// if a slot was selected or there is a factory application to run without one.
pub proof fn lemma_running_application_is_spared(
    events: Seq<UpdateEvent>,
    records: Seq<Seq<u8>>,
    flash: Seq<u8>,
    offset: int,
    bytes: Seq<u8>,
)
    requires
        possible(events),
        reached(events).target() is Some,
        without_overlap(records),
        selected_slot(events) != Some(Slot::Unselected) || first_where(
            records,
            of_kind(PartitionKind::Factory),
        ) is Some,
        app_record(records, selected_slot(events)->0) is Some,
        app_record(records, reached(events).target()->0) is Some,
        ({
            let target = app_record(records, reached(events).target()->0)->0;
            let running = app_record(records, selected_slot(events)->0)->0;
            &&& 0 <= offset <= offset + bytes.len() <= record_len(target)
            &&& record_offset(target) + record_len(target) <= flash.len()
            &&& record_offset(running) + record_len(running) <= flash.len()
        }),
    ensures
        ({
            let target = app_record(records, reached(events).target()->0)->0;
            let running = app_record(records, selected_slot(events)->0)->0;
            let start = record_offset(running);
            let end = start + record_len(running);
            &&& apart(target, running)
            &&& overwritten(flash, record_offset(target) + offset, bytes).subrange(start, end)
                == flash.subrange(start, end)
        }),
{
    lemma_target_follows_selected_slot(events);
    lemma_target_is_apart_from_running(records, selected_slot(events)->0);
}

/// There is one HTTP request for each message, made directly after it, and no other; each of them
/// is a GET of the same URL.
pub proof fn lemma_one_request_per_message(events: Seq<UpdateEvent>)
    requires
        possible(events),
    ensures
        requests(events).len() == messages_received(events),
        forall|i: int|
            0 <= i < requests(events).len() ==> #[trigger] requests(events)[i] == (
                Method::Get,
                "http://192.168.10.1/firmware"@,
            ),
        events.len() > 0 ==> (reached(events).request_line() is Some <==> events.last() is Trigger),
    decreases events.len(),
{
    if events.len() > 0 {
        lemma_one_request_per_message(events.drop_last());
    }
}

/// As long as no message has come there is no HTTP request, nothing is written into an
/// application, no slot is selected and the device does not restart.
pub proof fn lemma_nothing_happens_without_message(events: Seq<UpdateEvent>, end: int)
    requires
        possible(events),
        messages_received(events) == 0,
        0 <= end <= events.len(),
    ensures
        requests(events.take(end)).len() == 0,
        reached(events.take(end)).request_line() is None,
        !(reached(events.take(end)) is WriteChunk),
        !(reached(events.take(end)) is SelectSlot),
        !(reached(events.take(end)) is MarkImage),
        !(reached(events.take(end)) is Restart),
    decreases events.len() - end,
{
    if end < events.len() {
        lemma_nothing_happens_without_message(events.drop_last(), end);
        assert(events.drop_last().take(end) == events.take(end));
    } else {
        assert(events.take(end) == events);
        lemma_one_request_per_message(events);
        lemma_installation_needs_trigger_and_offer(events);
        lemma_trigger_is_counted(events);
    }
}

proof fn lemma_trigger_is_counted(events: Seq<UpdateEvent>)
    ensures
        triggered(events) ==> messages_received(events) > 0,
    decreases events.len(),
{
    if events.len() > 0 {
        lemma_trigger_is_counted(events.drop_last());
    }
}

/// The running image is confirmed, as valid, exactly where a slot is selected and its image is
/// new or still to be verified; its state is not even read where no slot is selected.
pub proof fn lemma_running_image_is_confirmed(events: Seq<UpdateEvent>)
    requires
        possible(events),
        events.len() > 0,
    ensures
        reached(events) is ReadImageState <==> (events.last() matches UpdateEvent::Selected { slot }
            && slot != Slot::Unselected),
        reached(events) is ConfirmImage <==> (events.last() matches UpdateEvent::Image { state }
            && state.is_unconfirmed()),
        reached(events) matches UpdateStep::ConfirmImage { current, state } ==> current
            != Slot::Unselected && state == ImageState::Valid,
    decreases events.len(),
{
    lemma_target_follows_selected_slot(events);
    if events.len() > 1 {
        lemma_running_image_is_confirmed(events.drop_last());
    }
}

/// Nothing is installed unless a message asked for it and the server answered with success and
/// with the length of the image.
pub proof fn lemma_installation_needs_trigger_and_offer(events: Seq<UpdateEvent>)
    requires
        possible(events),
    ensures
        reached(events) is RequestImage || reached(events).installing() ==> triggered(events),
        reached(events).installing() ==> offered_len(events) is Some,
        reached(events) matches UpdateStep::ReadChunk { image_len, .. } ==> offered_len(events)
            == Some(image_len),
        reached(events) matches UpdateStep::WriteChunk { image_len, .. } ==> offered_len(events)
            == Some(image_len),
    decreases events.len(),
{
    if events.len() > 0 {
        lemma_installation_needs_trigger_and_offer(events.drop_last());
    }
}

/// Any message asks for an update, whatever its text.
pub proof fn lemma_any_message_triggers(
    events: Seq<UpdateEvent>,
    slot: Slot,
    message: heapless::String<MESSAGE_CAPACITY>,
)
    requires
        possible(events),
        reached(events) == (UpdateStep::AwaitTrigger { slot }),
    ensures
        possible(events.push(UpdateEvent::Trigger { message })),
        reached(events.push(UpdateEvent::Trigger { message })) == (UpdateStep::RequestImage { slot }),
{
    assert(events.push(UpdateEvent::Trigger { message }).drop_last() == events);
}

/// A request that is refused, or answered without a length, changes nothing: everything begins
/// again.
pub proof fn lemma_refusal_begins_again(
    events: Seq<UpdateEvent>,
    status: u16,
    content_length: Option<usize>,
)
    requires
        possible(events),
        reached(events) is RequestImage,
        !success(status) || content_length is None,
    ensures
        possible(events.push((UpdateEvent::Response { status, content_length }))),
        reached(events.push((UpdateEvent::Response { status, content_length })))
            == UpdateStep::ReadSlot,
{
    let answered = events.push((UpdateEvent::Response { status, content_length }));
    assert(answered.drop_last() == events);
}

/// Every chunk is written directly behind the chunks before it.
pub proof fn lemma_chunks_are_written_in_a_row(events: Seq<UpdateEvent>)
    requires
        possible(events),
    ensures
        reached(events) matches UpdateStep::ReadChunk { offset, .. } ==> offset == received_len(events),
        reached(events) matches UpdateStep::WriteChunk { offset, len, .. } ==> offset + len
            == received_len(events),
    decreases events.len(),
{
    if events.len() > 0 {
        lemma_chunks_are_written_in_a_row(events.drop_last());
    }
}

/// A slot is selected as soon as as many bytes were written as the server announced, or as the
/// image cannot be read any further, and at no other time.
pub proof fn lemma_slot_is_selected_at_end_of_image(events: Seq<UpdateEvent>)
    requires
        possible(events),
        events.len() > 0,
    ensures
        reached(events) is SelectSlot <==> {
            ||| events.last() is ReadFailed
            ||| reached(events.drop_last()) is WriteChunk && (offered_len(events) matches Some(len)
                && len == received_len(events))
        },
{
    lemma_chunks_are_written_in_a_row(events.drop_last());
    lemma_installation_needs_trigger_and_offer(events.drop_last());
}

/// The device restarts only after the slot of the new image was selected and the image marked as
/// new, in this order and directly after each other; and nothing comes after the restart.
pub proof fn lemma_restart_completes_the_switch(events: Seq<UpdateEvent>, event: UpdateEvent)
    requires
        possible(events),
        reached(events) is Restart,
    ensures
        events.len() >= 2,
        reached(events.drop_last()).target() is Some,
        reached(events.drop_last()) == (UpdateStep::MarkImage {
            slot: reached(events.drop_last()).target()->0,
            state: ImageState::New,
        }),
        reached(events.drop_last().drop_last()) == (UpdateStep::SelectSlot {
            slot: reached(events.drop_last()).target()->0,
        }),
        !possible(events.push(event)),
{
    reveal_with_fuel(possible, 3);
    reveal_with_fuel(reached, 3);
    assert(events.push(event).drop_last() == events);
}

/// The bytes of the chunks, one after the other.
pub open spec fn joined(chunks: Seq<Seq<u8>>) -> Seq<u8>
    decreases chunks.len(),
{
    if chunks.len() == 0 {
        Seq::empty()
    } else {
        joined(chunks.drop_last()) + chunks.last()
    }
}

/// The contents of a partition after bytes were written into it.
pub open spec fn overwritten(contents: Seq<u8>, offset: int, bytes: Seq<u8>) -> Seq<u8> {
    contents.take(offset) + bytes + contents.skip(offset + bytes.len())
}

/// The events up to the point where the chunks have been read and written, one after the other.
pub open spec fn downloaded(events: Seq<UpdateEvent>, chunks: Seq<Seq<u8>>) -> Seq<UpdateEvent>
    decreases chunks.len(),
{
    if chunks.len() == 0 {
        events
    } else {
        downloaded(events, chunks.drop_last()).push(
            (UpdateEvent::Chunk { len: chunks.last().len() as usize }),
        ).push(UpdateEvent::Done)
    }
}

/// What the partition holds at that point, if each chunk was written where its step said.
pub open spec fn installed(events: Seq<UpdateEvent>, contents: Seq<u8>, chunks: Seq<Seq<u8>>) -> Seq<u8>
    decreases chunks.len(),
{
    if chunks.len() == 0 {
        contents
    } else {
        let held = installed(events, contents, chunks.drop_last());
        let writing = downloaded(events, chunks.drop_last()).push(
            (UpdateEvent::Chunk { len: chunks.last().len() as usize }),
        );
        match reached(writing) {
            UpdateStep::WriteChunk { offset, .. } => overwritten(held, offset as int, chunks.last()),
            _ => held,
        }
    }
}

/// The partition ends up with exactly the bytes that were read, from its beginning on and in
/// their order, and with what it held before behind them; the slot is selected when the last of
/// the announced bytes has been written and not before.
pub proof fn lemma_image_is_installed(
    events: Seq<UpdateEvent>,
    slot: Slot,
    image_len: usize,
    contents: Seq<u8>,
    chunks: Seq<Seq<u8>>,
)
    requires
        possible(events),
        reached(events) == (UpdateStep::ReadChunk { slot, image_len, offset: 0 }),
        forall|i: int| 0 <= i < chunks.len() ==> (#[trigger] chunks[i]).len() <= CHUNK_CAPACITY,
        joined(chunks).len() <= contents.len(),
        joined(chunks).len() <= u32::MAX,
        forall|n: int| 0 < n < chunks.len() ==> joined(#[trigger] chunks.take(n)).len() != image_len,
    ensures
        possible(downloaded(events, chunks)),
        reached(downloaded(events, chunks)) == if chunks.len() > 0 && joined(chunks).len()
            == image_len {
            UpdateStep::SelectSlot { slot }
        } else {
            UpdateStep::ReadChunk { slot, image_len, offset: joined(chunks).len() as u32 }
        },
        installed(events, contents, chunks) == joined(chunks) + contents.skip(
            joined(chunks).len() as int,
        ),
    decreases chunks.len(),
{
    if chunks.len() == 0 {
        assert(joined(chunks) + contents.skip(0) == contents);
    } else {
        let before = chunks.drop_last();
        assert forall|n: int| 0 < n < before.len() implies joined(#[trigger] before.take(n)).len()
            != image_len by {
            assert(before.take(n) == chunks.take(n));
        }
        assert forall|i: int| 0 <= i < before.len() implies (#[trigger] before[i]).len()
            <= CHUNK_CAPACITY by {
            assert(before[i] == chunks[i]);
        }
        lemma_image_is_installed(events, slot, image_len, contents, before);
        assert(chunks.take(chunks.len() - 1) == before);

        let reading = downloaded(events, before);
        let writing = reading.push((UpdateEvent::Chunk { len: chunks.last().len() as usize }));
        assert(writing.drop_last() == reading);
        assert(writing.push(UpdateEvent::Done).drop_last() == writing);
        assert(chunks.last() == chunks[chunks.len() - 1]);
        assert(reached(reading) == (UpdateStep::ReadChunk {
            slot,
            image_len,
            offset: joined(before).len() as u32,
        }));
        assert(possible(writing));
        assert(possible(writing.push(UpdateEvent::Done)));

        let held = joined(before) + contents.skip(joined(before).len() as int);
        assert(overwritten(held, joined(before).len() as int, chunks.last()) == joined(chunks)
            + contents.skip(joined(chunks).len() as int));
    }
}

proof fn lemma_next(events: Seq<UpdateEvent>, event: UpdateEvent)
    requires
        possible(events),
        reached(events).allows(event),
    ensures
        possible(events.push(event)),
        reached(events.push(event)) == reached(events).followed_by(event),
{
    assert(events.push(event).drop_last() == events);
}

/// What can come of each step, and nothing else can: in particular every slot, every state, every
/// message, every answer of the server, and every chunk that fits into the buffer and leaves the
/// number of bytes within 32 bits.
pub proof fn lemma_what_can_come_of_a_step(step: UpdateStep, event: UpdateEvent)
    ensures
        step.allows(event) <==> match event {
            UpdateEvent::Selected { .. } => step is ReadSlot,
            UpdateEvent::Image { .. } => step is ReadImageState,
            UpdateEvent::Trigger { .. } => step is AwaitTrigger,
            UpdateEvent::Response { .. } => step is RequestImage,
            UpdateEvent::ReadFailed => step is ReadChunk,
            UpdateEvent::Chunk { len } => step is ReadChunk && len <= 4096 && step->ReadChunk_offset + len
                <= 0xffff_ffff,
            UpdateEvent::Done => {
                ||| step is ConfirmImage
                ||| step is LocateTarget
                ||| step is SelectSlot
                ||| step is MarkImage
                ||| step is WriteChunk && step->WriteChunk_offset + step->WriteChunk_len <= 0xffff_ffff
            },
        },
{
}

/// Every answer to the question which slot is selected is taken up: with one of the two slots
/// the state of its image is read, and without a selection the first slot is the target.
pub proof fn lemma_every_selection_is_taken_up(events: Seq<UpdateEvent>, slot: Slot)
    requires
        possible(events),
        reached(events) is ReadSlot,
    ensures
        ({
            let read = events.push(UpdateEvent::Selected { slot });
            &&& possible(read)
            &&& slot == Slot::Slot0 ==> reached(read) == UpdateStep::ReadImageState {
                current: Slot::Slot0,
            }
            &&& slot == Slot::Slot1 ==> reached(read) == UpdateStep::ReadImageState {
                current: Slot::Slot1,
            }
            &&& slot == Slot::Unselected ==> reached(read) == UpdateStep::LocateTarget {
                slot: Slot::Slot0,
            }
        }),
{
    lemma_next(events, UpdateEvent::Selected { slot });
}

/// A target is always chosen: whatever the state of the running image, the other one of the two
/// slots becomes the target, after a new or pending image has been confirmed as valid and at once
/// for any other.
pub proof fn lemma_every_state_leads_to_a_target(
    events: Seq<UpdateEvent>,
    current: Slot,
    state: ImageState,
)
    requires
        possible(events),
        reached(events) == (UpdateStep::ReadImageState { current }),
    ensures
        ({
            let other = if current == Slot::Slot0 {
                Slot::Slot1
            } else {
                Slot::Slot0
            };
            let read = events.push(UpdateEvent::Image { state });
            &&& possible(read)
            &&& if state == ImageState::New || state == ImageState::PendingVerify {
                &&& reached(read) == UpdateStep::ConfirmImage { current, state: ImageState::Valid }
                &&& possible(read.push(UpdateEvent::Done))
                &&& reached(read.push(UpdateEvent::Done)) == UpdateStep::LocateTarget { slot: other }
            } else {
                reached(read) == UpdateStep::LocateTarget { slot: other }
            }
        }),
{
    let read = events.push(UpdateEvent::Image { state });
    lemma_next(events, UpdateEvent::Image { state });
    if state == ImageState::New || state == ImageState::PendingVerify {
        lemma_next(read, UpdateEvent::Done);
    }
}

/// Every target that was found is waited with for a message, and every message leads to a request
/// for that target.
pub proof fn lemma_every_target_is_waited_with(
    events: Seq<UpdateEvent>,
    slot: Slot,
    message: heapless::String<MESSAGE_CAPACITY>,
)
    requires
        possible(events),
        reached(events) == (UpdateStep::LocateTarget { slot }),
    ensures
        ({
            let waiting = events.push(UpdateEvent::Done);
            let asked = waiting.push(UpdateEvent::Trigger { message });
            &&& possible(waiting)
            &&& reached(waiting) == UpdateStep::AwaitTrigger { slot }
            &&& possible(asked)
            &&& reached(asked) == UpdateStep::RequestImage { slot }
        }),
{
    let waiting = events.push(UpdateEvent::Done);
    lemma_next(events, UpdateEvent::Done);
    lemma_next(waiting, UpdateEvent::Trigger { message });
}

/// Every answer of the server is taken up: an image of any length is fetched where the status is
/// one of 200 to 299 and the length is given, from its first byte on and for the slot that was
/// the target; with any other status and without a length everything begins again.
pub proof fn lemma_every_offer_is_taken_up(
    events: Seq<UpdateEvent>,
    slot: Slot,
    status: u16,
    content_length: Option<usize>,
)
    requires
        possible(events),
        reached(events) == (UpdateStep::RequestImage { slot }),
    ensures
        ({
            let answered = events.push((UpdateEvent::Response { status, content_length }));
            &&& possible(answered)
            &&& 200 <= status <= 299 ==> (content_length matches Some(len) ==> reached(answered) == (
            UpdateStep::ReadChunk { slot, image_len: len, offset: 0 }))
            &&& !(200 <= status <= 299) || content_length is None ==> reached(answered)
                == UpdateStep::ReadSlot
        }),
{
    lemma_next(events, (UpdateEvent::Response { status, content_length }));
}

/// Every chunk that fits into the buffer is written behind those before it, for the same slot and
/// the same image. The image is complete exactly when as many bytes have been written as it is
/// long; before that the next chunk is read. If no chunk can be read, the slot is selected.
pub proof fn lemma_every_chunk_is_written(
    events: Seq<UpdateEvent>,
    slot: Slot,
    image_len: usize,
    offset: u32,
    len: usize,
)
    requires
        possible(events),
        reached(events) == (UpdateStep::ReadChunk { slot, image_len, offset }),
    ensures
        possible(events.push(UpdateEvent::ReadFailed)),
        reached(events.push(UpdateEvent::ReadFailed)) == (UpdateStep::SelectSlot { slot }),
        len <= 4096 && offset + len <= 0xffff_ffff ==> {
            let writing = events.push(UpdateEvent::Chunk { len });
            let written = writing.push(UpdateEvent::Done);
            &&& possible(writing)
            &&& reached(writing) == UpdateStep::WriteChunk { slot, image_len, offset, len }
            &&& possible(written)
            &&& offset + len == image_len ==> reached(written) == UpdateStep::SelectSlot { slot }
            &&& offset + len != image_len ==> {
                &&& reached(written) is ReadChunk
                &&& reached(written)->ReadChunk_slot == slot
                &&& reached(written)->ReadChunk_image_len == image_len
                &&& reached(written)->ReadChunk_offset == offset + len
            }
        },
{
    lemma_next(events, UpdateEvent::ReadFailed);
    if len <= 4096 && offset + len <= 0xffff_ffff {
        lemma_next(events, UpdateEvent::Chunk { len });
        lemma_next(events.push(UpdateEvent::Chunk { len }), UpdateEvent::Done);
    }
}

/// Every slot that is selected has its image marked as new, and then the device restarts.
pub proof fn lemma_every_selected_slot_is_booted(events: Seq<UpdateEvent>, slot: Slot)
    requires
        possible(events),
        reached(events) == (UpdateStep::SelectSlot { slot }),
    ensures
        ({
            let selected = events.push(UpdateEvent::Done);
            let marked = selected.push(UpdateEvent::Done);
            &&& possible(selected)
            &&& reached(selected) == UpdateStep::MarkImage { slot, state: ImageState::New }
            &&& possible(marked)
            &&& reached(marked) == UpdateStep::Restart
        }),
{
    lemma_next(events, UpdateEvent::Done);
    lemma_next(events.push(UpdateEvent::Done), UpdateEvent::Done);
}

/// The same holds of every step, whether or not a run reaches it: what comes next for each answer
/// to it.
pub proof fn lemma_next_steps(step: UpdateStep, event: UpdateEvent)
    requires
        step.allows(event),
    ensures
        event matches UpdateEvent::Selected { slot } ==> step.followed_by(event) == (if slot
            == Slot::Unselected {
            UpdateStep::LocateTarget { slot: Slot::Slot0 }
        } else {
            UpdateStep::ReadImageState { current: slot }
        }),
        event matches UpdateEvent::Image { state } ==> {
            let current = step->ReadImageState_current;
            step.followed_by(event) == if state == ImageState::New || state
                == ImageState::PendingVerify {
                UpdateStep::ConfirmImage { current, state: ImageState::Valid }
            } else if current == Slot::Slot0 {
                UpdateStep::LocateTarget { slot: Slot::Slot1 }
            } else {
                UpdateStep::LocateTarget { slot: Slot::Slot0 }
            }
        },
        step matches UpdateStep::ConfirmImage { current, .. } ==> step.followed_by(event) == (
        UpdateStep::LocateTarget {
            slot: if current == Slot::Slot0 {
                Slot::Slot1
            } else {
                Slot::Slot0
            },
        }),
        step matches UpdateStep::LocateTarget { slot } ==> step.followed_by(event) == (
        UpdateStep::AwaitTrigger { slot }),
        step matches UpdateStep::AwaitTrigger { slot } ==> step.followed_by(event) == (
        UpdateStep::RequestImage { slot }),
        event matches UpdateEvent::Response { status, content_length } ==> step.followed_by(event) == (
        match content_length {
            Some(image_len) if 200 <= status <= 299 => UpdateStep::ReadChunk {
                slot: step->RequestImage_slot,
                image_len,
                offset: 0,
            },
            _ => UpdateStep::ReadSlot,
        }),
        event matches UpdateEvent::Chunk { len } ==> step.followed_by(event) == (
        UpdateStep::WriteChunk {
            slot: step->ReadChunk_slot,
            image_len: step->ReadChunk_image_len,
            offset: step->ReadChunk_offset,
            len,
        }),
        event is ReadFailed ==> step.followed_by(event) == (UpdateStep::SelectSlot {
            slot: step->ReadChunk_slot,
        }),
        step matches UpdateStep::WriteChunk { slot, image_len, offset, len } ==> {
            let next = step.followed_by(event);
            &&& offset + len == image_len ==> next == UpdateStep::SelectSlot { slot }
            &&& offset + len != image_len ==> next is ReadChunk && next->ReadChunk_slot == slot
                && next->ReadChunk_image_len == image_len && next->ReadChunk_offset == offset + len
        },
        step matches UpdateStep::SelectSlot { slot } ==> step.followed_by(event) == (
        UpdateStep::MarkImage { slot, state: ImageState::New }),
        step is MarkImage ==> step.followed_by(event) is Restart,
{
}

/// A whole update goes through: from the question which slot is selected to the restart, for
/// every slot, every state of the running image, every message, every successful status and every
/// image that arrives in chunks that fit into the buffer and is as long as announced.
pub proof fn lemma_update_goes_through(
    events: Seq<UpdateEvent>,
    current: Slot,
    state: ImageState,
    message: heapless::String<MESSAGE_CAPACITY>,
    status: u16,
    image_len: usize,
    contents: Seq<u8>,
    chunks: Seq<Seq<u8>>,
) -> (run: Seq<UpdateEvent>)
    requires
        possible(events),
        reached(events) is ReadSlot,
        200 <= status <= 299,
        chunks.len() > 0,
        forall|i: int| 0 <= i < chunks.len() ==> (#[trigger] chunks[i]).len() <= 4096,
        joined(chunks).len() == image_len,
        image_len <= 0xffff_ffff,
        image_len <= contents.len(),
        forall|n: int| 0 < n < chunks.len() ==> joined(#[trigger] chunks.take(n)).len() != image_len,
    ensures
        possible(run),
        reached(run) is Restart,
        reached(run.drop_last().drop_last()) == (UpdateStep::SelectSlot {
            slot: if current == Slot::Slot0 {
                Slot::Slot1
            } else {
                Slot::Slot0
            },
        }),
        exists|offered: Seq<UpdateEvent>|
            #![trigger installed(offered, contents, chunks)]
            {
                &&& events.is_prefix_of(offered)
                &&& run == downloaded(offered, chunks).push(UpdateEvent::Done).push(UpdateEvent::Done)
                &&& installed(offered, contents, chunks) == joined(chunks) + contents.skip(
                    image_len as int,
                )
            },
{
    let slot = if current == Slot::Slot0 {
        Slot::Slot1
    } else {
        Slot::Slot0
    };
    lemma_every_selection_is_taken_up(events, current);
    let selected = events.push(UpdateEvent::Selected { slot: current });
    let located = if current == Slot::Unselected {
        selected
    } else {
        lemma_every_state_leads_to_a_target(selected, current, state);
        let read = selected.push(UpdateEvent::Image { state });
        if state == ImageState::New || state == ImageState::PendingVerify {
            read.push(UpdateEvent::Done)
        } else {
            read
        }
    };
    lemma_every_target_is_waited_with(located, slot, message);
    let asked = located.push(UpdateEvent::Done).push(UpdateEvent::Trigger { message });
    lemma_every_offer_is_taken_up(asked, slot, status, Some(image_len));
    let offered = asked.push(
        (UpdateEvent::Response { status, content_length: Some(image_len) }),
    );
    lemma_image_is_installed(offered, slot, image_len, contents, chunks);
    let complete = downloaded(offered, chunks);
    lemma_every_selected_slot_is_booted(complete, slot);
    let run = complete.push(UpdateEvent::Done).push(UpdateEvent::Done);
    assert(run.drop_last().drop_last() == complete);
    run
}

} // verus!
