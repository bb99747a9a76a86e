//! The response object and its order-independent decoder.

use crate::error::{lemma_error_round_trip, spec_decode_error, Error, ErrorView};
use crate::failure::{DecodeError, DecodeErrorView, Subject};
use crate::id::{encode_optional, id_view, Id, IdView};
use crate::key::Key;
use crate::text::{byte_len, BoundedText};
use crate::value::{lemma_object_view, member_views, Member, MemberView, Value, ValueView};
use crate::version::Version;
use vstd::prelude::*;

verus! {

/// Response representation.
///
/// When omitting `id`, it shall be serialized as `null` and means you're
/// unable to identify `id` of `Request`. Note that JSON-RPCv2 specifies that
/// `id` must be always present, therefore you're encouraged to treat missing
/// `id` as error, unless response is error itself, in which case it might be
/// indication that server treats request as invalid (e.g. unable to parse
/// request's id).
///
/// `jsonrpc` may be omitted during deserialization and defaults to v2.
///
/// Type parameters:
///
/// - `R`  - Type of payload for successful response
/// - `E`  - Type of optional data for `Error`.
/// - `EM` - Type of `E::M`, which is used for `message` field of error.
#[derive(Debug, PartialEq)]
pub struct Response<R, E, EM = BoundedText<31>> {
    /// A String specifying the version of the JSON-RPC protocol.
    pub jsonrpc: Version,
    /// Content of response, depending on whether it is success or failure.
    pub payload: Result<R, Error<E, EM>>,
    /// An identifier established by the Client.
    ///
    /// If not present, it is sent in response to invalid request (e.g. unable
    /// to recognize id).
    ///
    /// Must be present always, so `None` is serialized as `null`.
    pub id: Option<Id>,
}

impl<R: Clone, E: Clone, EM: Clone> Clone for Response<R, E, EM> {
    fn clone(&self) -> (copy: Self)
        ensures
            copy.jsonrpc == self.jsonrpc,
            copy.id == self.id,
            copy.payload is Ok <==> self.payload is Ok,
    {
        Response {
            jsonrpc: self.jsonrpc,
            payload: match &self.payload {
                Ok(result) => Ok(result.clone()),
                Err(error) => Err(error.clone()),
            },
            id: self.id,
        }
    }
}

impl<R, E, EM> Response<R, E, EM> {
    /// Creates successful response.
    pub fn result(jsonrpc: Version, result: R, id: Option<Id>) -> (made: Self)
        ensures
            made.jsonrpc == jsonrpc,
            made.payload == Ok::<R, Error<E, EM>>(result),
            made.id == id,
    {
        Self { jsonrpc, payload: Ok(result), id }
    }

    /// Creates error response.
    pub fn error(jsonrpc: Version, error: Error<E, EM>, id: Option<Id>) -> (made: Self)
        ensures
            made.jsonrpc == jsonrpc,
            made.payload == Err::<R, Error<E, EM>>(error),
            made.id == id,
    {
        Self { jsonrpc, payload: Err(error), id }
    }
}

/// The mathematical content of a response whose result and error data are
/// structured values.
pub ghost struct ResponseView {
    pub jsonrpc: Version,
    pub payload: Result<ValueView, ErrorView>,
    pub id: Option<IdView>,
}

/// What a decoder has read of a response object so far: the four slots that
/// the members fill in whatever order they come.
pub ghost struct ResponseSlots {
    /// The version, once a `jsonrpc` member was read.
    pub version: Option<Version>,
    /// The payload, once a `result` or an `error` member with a value other
    /// than null was read.
    pub payload: Option<Result<ValueView, ErrorView>>,
    /// Whether a `result` member with the null value was read.
    pub null_result: bool,
    /// The identifier that the last `id` member held.
    pub id: Option<IdView>,
}

impl ResponseView {
    /// Whether the content survives the wire: an error payload and an
    /// identifier that is present do.
    pub open spec fn canonical(self, capacity: nat) -> bool {
        &&& self.payload matches Err(error) ==> error.canonical(capacity)
        &&& self.id matches Some(id) ==> id.valid()
    }

    /// The member that carries the payload: `result` for a success and
    /// `error` for a failure.
    pub open spec fn payload_member(self) -> MemberView {
        match self.payload {
            Ok(result) => MemberView { key: "result"@, value: result },
            Err(error) => MemberView { key: "error"@, value: error.encode() },
        }
    }

    /// The members that stand for a response: always the three `jsonrpc`,
    /// then `result` or `error`, then `id`, which holds the null value where
    /// there is no identifier.
    pub open spec fn members(self) -> Seq<MemberView> {
        seq![
            MemberView { key: "jsonrpc"@, value: self.jsonrpc.spec_encode() },
            self.payload_member(),
            MemberView { key: "id"@, value: Id::spec_encode_optional(self.id) },
        ]
    }

    /// The structured value that stands for a response.
    pub open spec fn encode(self) -> ValueView {
        ValueView::Object(self.members())
    }
}

impl ResponseSlots {
    /// Nothing read yet.
    pub open spec fn empty() -> ResponseSlots {
        ResponseSlots { version: None, payload: None, null_result: false, id: None }
    }

    /// What reading the value of the member `key` gives.
    ///
    /// The version and the identifier are decoded and stored; a later one
    /// replaces an earlier one. A `result` or an `error` with the null value
    /// never conflicts: the null `result` is only remembered, the null
    /// `error` is passed over. Any other `result` or `error` is a conflict
    /// if the payload slot is filled already, whatever its value holds;
    /// otherwise it fills the slot, an `error` once it is decoded.
    pub open spec fn accept(self, key: Key, value: ValueView, capacity: nat) -> Result<
        ResponseSlots,
        DecodeErrorView,
    > {
        match key {
            Key::JsonRpc => match Version::spec_decode(value) {
                Ok(version) => Ok(ResponseSlots { version: Some(version), ..self }),
                Err(e) => Err(e),
            },
            Key::Result => if value is Null {
                Ok(ResponseSlots { null_result: true, ..self })
            } else if self.payload is Some {
                Err(DecodeErrorView::Conflict)
            } else {
                Ok(ResponseSlots { payload: Some(Ok(value)), ..self })
            },
            Key::Error => if value is Null {
                Ok(self)
            } else if self.payload is Some {
                Err(DecodeErrorView::Conflict)
            } else {
                match spec_decode_error(value, capacity) {
                    Ok(error) => Ok(ResponseSlots { payload: Some(Err(error)), ..self }),
                    Err(e) => Err(e),
                }
            },
            Key::Id => match Id::spec_decode_optional(value) {
                Ok(id) => Ok(ResponseSlots { id, ..self }),
                Err(e) => Err(e),
            },
        }
    }

    /// What reading one more member gives: its name is matched without regard
    /// to case, and a name that stands for no member is rejected.
    pub open spec fn step(self, member: MemberView, capacity: nat) -> Result<
        ResponseSlots,
        DecodeErrorView,
    > {
        match Key::spec_parse(member.key) {
            Some(key) => self.accept(key, member.value, capacity),
            None => Err(
                DecodeErrorView::UnknownField { name: member.key, owner: Subject::Response },
            ),
        }
    }

    /// What reading the members in their order gives: the first failure, or
    /// the slots after the last member.
    pub open spec fn fold(self, members: Seq<MemberView>, capacity: nat) -> Result<
        ResponseSlots,
        DecodeErrorView,
    >
        decreases members.len(),
    {
        if members.len() == 0 {
            Ok(self)
        } else {
            match self.step(members[0], capacity) {
                Ok(next) => next.fold(members.drop_first(), capacity),
                Err(e) => Err(e),
            }
        }
    }

    /// The response that the slots make once every member is read. The
    /// payload is the one that was read; where none was, a null `result`
    /// that was seen is the payload, and without that the payload is missing.
    /// The version defaults to 2.0 and the identifier to none.
    pub open spec fn finish(self) -> Result<ResponseView, DecodeErrorView> {
        let jsonrpc = match self.version {
            Some(version) => version,
            None => Version::V2,
        };
        match self.payload {
            Some(payload) => Ok(ResponseView { jsonrpc, payload, id: self.id }),
            None => if self.null_result {
                Ok(ResponseView { jsonrpc, payload: Ok(ValueView::Null), id: self.id })
            } else {
                Err(DecodeErrorView::MissingPayload)
            },
        }
    }
}

/// What decoding a structured value as a response gives, for an error
/// message of at most `capacity` bytes: the value is an object, its members
/// are read in their order, whatever that is, and a payload is there at the
/// end.
pub open spec fn spec_decode_response(value: ValueView, capacity: nat) -> Result<
    ResponseView,
    DecodeErrorView,
> {
    match value {
        ValueView::Object(members) => match ResponseSlots::empty().fold(members, capacity) {
            Ok(slots) => slots.finish(),
            Err(e) => Err(e),
        },
        _ => Err(DecodeErrorView::InvalidType { found: value, expected: Subject::Response }),
    }
}

/// Reading a sequence of members is reading its first part and then, from the
/// slots that gives, the rest.
pub proof fn lemma_fold_concat(
    slots: ResponseSlots,
    head: Seq<MemberView>,
    tail: Seq<MemberView>,
    capacity: nat,
)
    ensures
        slots.fold(head + tail, capacity) == match slots.fold(head, capacity) {
            Ok(next) => next.fold(tail, capacity),
            Err(e) => Err(e),
        },
    decreases head.len(),
{
    if head.len() == 0 {
        assert(head + tail == tail);
    } else {
        assert((head + tail)[0] == head[0]);
        assert((head + tail).drop_first() == head.drop_first() + tail);
        match slots.step(head[0], capacity) {
            Ok(next) => lemma_fold_concat(next, head.drop_first(), tail, capacity),
            Err(_) => {},
        }
    }
}

/// Reading a single member is one step.
pub proof fn lemma_fold_one(slots: ResponseSlots, member: MemberView, capacity: nat)
    ensures
        slots.fold(seq![member], capacity) == slots.step(member, capacity),
{
    let members = seq![member];
    assert(members[0] == member);
    assert(members.drop_first().len() == 0);
    match slots.step(member, capacity) {
        Ok(next) => {
            assert(next.fold(members.drop_first(), capacity) == Ok::<
                ResponseSlots,
                DecodeErrorView,
            >(next));
        },
        Err(_) => {},
    }
}

/// The encoding of a response always has the three members `jsonrpc`, the
/// payload and `id`, in this order: the `id` member is never left out, and
/// it holds null exactly where the response has no identifier.
pub proof fn lemma_id_is_always_written(response: ResponseView)
    requires
        response.id matches Some(id) ==> id.valid(),
    ensures
        response.encode() matches ValueView::Object(members) && {
            &&& members.len() == 3
            &&& members[0].key == "jsonrpc"@
            &&& members[1].key == (if response.payload is Ok {
                "result"@
            } else {
                "error"@
            })
            &&& members[2].key == "id"@
            &&& members[2].value is Null <==> response.id is None
        },
{
}

/// Decoding what was encoded gives the response back.
pub proof fn lemma_response_round_trip(response: ResponseView, capacity: nat)
    requires
        response.canonical(capacity),
    ensures
        spec_decode_response(response.encode(), capacity) == Ok::<ResponseView, DecodeErrorView>(
            response,
        ),
{
    Key::lemma_name_parses(Key::JsonRpc);
    Key::lemma_name_parses(Key::Result);
    Key::lemma_name_parses(Key::Error);
    Key::lemma_name_parses(Key::Id);
    reveal_strlit("2.0");
    let version = MemberView { key: "jsonrpc"@, value: response.jsonrpc.spec_encode() };
    let payload = response.payload_member();
    let id = MemberView { key: "id"@, value: Id::spec_encode_optional(response.id) };
    let start = ResponseSlots::empty();
    let versioned = ResponseSlots { version: Some(response.jsonrpc), ..start };
    let loaded = match response.payload {
        Ok(result) => if result is Null {
            ResponseSlots { null_result: true, ..versioned }
        } else {
            ResponseSlots { payload: Some(Ok(result)), ..versioned }
        },
        Err(error) => ResponseSlots { payload: Some(Err(error)), ..versioned },
    };
    let done = ResponseSlots { id: response.id, ..loaded };
    assert(start.step(version, capacity) == Ok::<ResponseSlots, DecodeErrorView>(versioned));
    assert(versioned.step(payload, capacity) == Ok::<ResponseSlots, DecodeErrorView>(loaded)) by {
        if let Err(error) = response.payload {
            lemma_error_round_trip(error, capacity);
        }
    }
    assert(loaded.step(id, capacity) == Ok::<ResponseSlots, DecodeErrorView>(done)) by {
        if let Some(found) = response.id {
            Id::lemma_round_trip(found);
        }
    }
    lemma_fold_one(start, version, capacity);
    lemma_fold_one(versioned, payload, capacity);
    lemma_fold_one(loaded, id, capacity);
    assert(response.members() == seq![version] + (seq![payload] + seq![id]));
    lemma_fold_concat(versioned, seq![payload], seq![id], capacity);
    lemma_fold_concat(start, seq![version], seq![payload] + seq![id], capacity);
}

/// Whether a member carries a payload: it is named `result` or `error` and
/// holds a value other than null.
pub open spec fn carries_payload(member: MemberView) -> bool {
    &&& Key::spec_parse(member.key) == Some(Key::Result) || Key::spec_parse(member.key) == Some(
        Key::Error,
    )
    &&& !(member.value is Null)
}

/// Whether a member can be read on its own: its name stands for a member of
/// a response and its value decodes as that member's.
pub open spec fn readable(member: MemberView, capacity: nat) -> bool {
    ResponseSlots::empty().step(member, capacity) is Ok
}

/// The payload that a member which carries one holds.
pub open spec fn payload_of(member: MemberView, capacity: nat) -> Option<
    Result<ValueView, ErrorView>,
> {
    match ResponseSlots::empty().step(member, capacity) {
        Ok(slots) => slots.payload,
        Err(_) => None,
    }
}

/// A member that can be read on its own fails after others only by a
/// conflict, and leaves a payload that was read before in its slot.
pub proof fn lemma_step_readable(slots: ResponseSlots, member: MemberView, capacity: nat)
    requires
        readable(member, capacity),
    ensures
        slots.step(member, capacity) is Ok || slots.step(member, capacity) == Err::<
            ResponseSlots,
            DecodeErrorView,
        >(DecodeErrorView::Conflict),
        slots.step(member, capacity) is Err ==> slots.payload is Some && carries_payload(member),
        slots.step(member, capacity) matches Ok(next) ==> {
            &&& slots.payload is Some ==> next.payload == slots.payload
            &&& slots.payload is None && carries_payload(member) ==> next.payload is Some
                && next.payload == payload_of(member, capacity)
            &&& slots.payload is None && !carries_payload(member) ==> next.payload is None
            &&& next.null_result == (slots.null_result || (Key::spec_parse(member.key) == Some(
                Key::Result,
            ) && member.value is Null))
        },
{
}

/// Once a payload is read, a step keeps it or fails.
pub proof fn lemma_step_keeps_payload(slots: ResponseSlots, member: MemberView, capacity: nat)
    requires
        slots.payload is Some,
    ensures
        slots.step(member, capacity) matches Ok(next) ==> next.payload == slots.payload,
        carries_payload(member) ==> slots.step(member, capacity) == Err::<
            ResponseSlots,
            DecodeErrorView,
        >(DecodeErrorView::Conflict),
{
}

/// Whether every member can be read on its own.
pub open spec fn all_readable(members: Seq<MemberView>, capacity: nat) -> bool {
    forall|k: int| 0 <= k < members.len() ==> readable(#[trigger] members[k], capacity)
}

/// Members that can each be read on their own fail together only by a
/// conflict.
pub proof fn lemma_fold_readable(slots: ResponseSlots, members: Seq<MemberView>, capacity: nat)
    requires
        all_readable(members, capacity),
    ensures
        slots.fold(members, capacity) is Ok || slots.fold(members, capacity) == Err::<
            ResponseSlots,
            DecodeErrorView,
        >(DecodeErrorView::Conflict),
    decreases members.len(),
{
    if members.len() > 0 {
        assert(readable(members[0], capacity));
        lemma_step_readable(slots, members[0], capacity);
        if let Ok(next) = slots.step(members[0], capacity) {
            let rest = members.drop_first();
            assert forall|k: int| 0 <= k < rest.len() implies readable(
                #[trigger] rest[k],
                capacity,
            ) by {
                assert(rest[k] == members[k + 1]);
            }
            lemma_fold_readable(next, rest, capacity);
        }
    }
}

/// Whether every member in front of position `end` can be read on its own.
pub open spec fn readable_before(members: Seq<MemberView>, end: int, capacity: nat) -> bool {
    forall|k: int| 0 <= k < end && k < members.len() ==> readable(#[trigger] members[k], capacity)
}

/// Once a payload is read, a member that carries another one makes the
/// reading fail; it fails as a conflict where the members in front of that
/// one can each be read.
pub proof fn lemma_fold_second_payload(
    slots: ResponseSlots,
    members: Seq<MemberView>,
    j: int,
    capacity: nat,
)
    requires
        slots.payload is Some,
        0 <= j < members.len(),
        carries_payload(members[j]),
    ensures
        slots.fold(members, capacity) is Err,
        readable_before(members, j, capacity) ==> slots.fold(members, capacity) == Err::<
            ResponseSlots,
            DecodeErrorView,
        >(DecodeErrorView::Conflict),
    decreases members.len(),
{
    lemma_step_keeps_payload(slots, members[0], capacity);
    if j > 0 {
        if readable_before(members, j, capacity) {
            assert(readable(members[0], capacity));
            lemma_step_readable(slots, members[0], capacity);
        }
        if let Ok(next) = slots.step(members[0], capacity) {
            let rest = members.drop_first();
            assert(rest[j - 1] == members[j]);
            if readable_before(members, j, capacity) {
                assert forall|k: int| 0 <= k < j - 1 && k < rest.len() implies readable(
                    #[trigger] rest[k],
                    capacity,
                ) by {
                    assert(rest[k] == members[k + 1]);
                }
            }
            lemma_fold_second_payload(next, rest, j - 1, capacity);
        }
    }
}

/// Two members that carry a payload make the reading fail, whatever was read
/// before; it fails as a conflict where the members in front of the second
/// one can each be read.
pub proof fn lemma_fold_two_payloads(
    slots: ResponseSlots,
    members: Seq<MemberView>,
    i: int,
    j: int,
    capacity: nat,
)
    requires
        0 <= i < j < members.len(),
        carries_payload(members[i]),
        carries_payload(members[j]),
    ensures
        slots.fold(members, capacity) is Err,
        readable_before(members, j, capacity) ==> slots.fold(members, capacity) == Err::<
            ResponseSlots,
            DecodeErrorView,
        >(DecodeErrorView::Conflict),
    decreases members.len(),
{
    if readable_before(members, j, capacity) {
        assert(readable(members[0], capacity));
        lemma_step_readable(slots, members[0], capacity);
    }
    if let Ok(next) = slots.step(members[0], capacity) {
        let rest = members.drop_first();
        assert(rest[j - 1] == members[j]);
        if readable_before(members, j, capacity) {
            assert forall|k: int| 0 <= k < j - 1 && k < rest.len() implies readable(
                #[trigger] rest[k],
                capacity,
            ) by {
                assert(rest[k] == members[k + 1]);
            }
        }
        if i == 0 {
            assert(next.payload is Some);
            lemma_fold_second_payload(next, rest, j - 1, capacity);
        } else {
            assert(rest[i - 1] == members[i]);
            lemma_fold_two_payloads(next, rest, i - 1, j - 1, capacity);
        }
    }
}

/// Members that can each be read and of which none carries a payload leave
/// the payload slot as it was, and remember a null `result` among them.
pub proof fn lemma_fold_no_payload(slots: ResponseSlots, members: Seq<MemberView>, capacity: nat)
    requires
        all_readable(members, capacity),
        forall|k: int| 0 <= k < members.len() ==> !carries_payload(#[trigger] members[k]),
    ensures
        slots.fold(members, capacity) matches Ok(last) && last.payload == slots.payload && (
        last.null_result <==> slots.null_result || exists|k: int|
            0 <= k < members.len() && Key::spec_parse(#[trigger] members[k].key) == Some(
                Key::Result,
            )),
    decreases members.len(),
{
    if members.len() > 0 {
        let rest = members.drop_first();
        assert(readable(members[0], capacity));
        assert(!carries_payload(members[0]));
        lemma_step_readable(slots, members[0], capacity);
        let next = slots.step(members[0], capacity)->Ok_0;
        assert forall|k: int| 0 <= k < rest.len() implies readable(#[trigger] rest[k], capacity)
            && !carries_payload(rest[k]) by {
            assert(rest[k] == members[k + 1]);
        }
        lemma_fold_no_payload(next, rest, capacity);
        let last = next.fold(rest, capacity)->Ok_0;
        if last.null_result {
            if !slots.null_result {
                if next.null_result {
                    assert(Key::spec_parse(members[0].key) == Some(Key::Result));
                } else {
                    let k = choose|k: int|
                        0 <= k < rest.len() && Key::spec_parse(#[trigger] rest[k].key) == Some(
                            Key::Result,
                        );
                    assert(rest[k] == members[k + 1]);
                }
            }
        } else {
            assert forall|k: int| 0 <= k < members.len() implies Key::spec_parse(
                #[trigger] members[k].key,
            ) != Some(Key::Result) by {
                if k > 0 {
                    assert(rest[k - 1] == members[k]);
                }
            }
        }
    }
}

/// Among members that can each be read, a single one that carries a payload
/// fills the empty payload slot, wherever it stands.
pub proof fn lemma_fold_single_payload(
    slots: ResponseSlots,
    members: Seq<MemberView>,
    i: int,
    capacity: nat,
)
    requires
        slots.payload is None,
        all_readable(members, capacity),
        0 <= i < members.len(),
        carries_payload(members[i]),
        forall|k: int| 0 <= k < members.len() && k != i ==> !carries_payload(#[trigger] members[k]),
    ensures
        slots.fold(members, capacity) matches Ok(last) && last.payload is Some && last.payload
            == payload_of(members[i], capacity),
    decreases members.len(),
{
    let rest = members.drop_first();
    assert(readable(members[0], capacity));
    lemma_step_readable(slots, members[0], capacity);
    let next = slots.step(members[0], capacity)->Ok_0;
    assert forall|k: int| 0 <= k < rest.len() implies readable(#[trigger] rest[k], capacity) by {
        assert(rest[k] == members[k + 1]);
    }
    if i == 0 {
        assert forall|k: int| 0 <= k < rest.len() implies !carries_payload(#[trigger] rest[k]) by {
            assert(rest[k] == members[k + 1]);
        }
        lemma_fold_no_payload(next, rest, capacity);
    } else {
        assert(!carries_payload(members[0]));
        assert(rest[i - 1] == members[i]);
        assert forall|k: int| 0 <= k < rest.len() && k != i - 1 implies !carries_payload(
            #[trigger] rest[k],
        ) by {
            assert(rest[k] == members[k + 1]);
        }
        lemma_fold_single_payload(next, rest, i - 1, capacity);
    }
}

/// An object in which two members carry a payload is rejected, in whatever
/// order its members stand. Where the members in front of the second of the
/// two can each be read on its own, it is rejected as a conflict, whatever
/// the second one and those behind it hold.
pub proof fn lemma_two_payloads_conflict(
    members: Seq<MemberView>,
    i: int,
    j: int,
    capacity: nat,
)
    requires
        0 <= i < j < members.len(),
        carries_payload(members[i]),
        carries_payload(members[j]),
    ensures
        spec_decode_response(ValueView::Object(members), capacity) is Err,
        readable_before(members, j, capacity) ==> spec_decode_response(
            ValueView::Object(members),
            capacity,
        ) == Err::<ResponseView, DecodeErrorView>(DecodeErrorView::Conflict),
{
    lemma_fold_two_payloads(ResponseSlots::empty(), members, i, j, capacity);
}

/// An object in which exactly one member carries a payload, and every member
/// can be read on its own, decodes to that payload: a `result` or an `error`
/// that holds null beside it is no conflict, before it or after it.
pub proof fn lemma_null_sibling_is_no_conflict(members: Seq<MemberView>, i: int, capacity: nat)
    requires
        all_readable(members, capacity),
        0 <= i < members.len(),
        carries_payload(members[i]),
        forall|k: int| 0 <= k < members.len() && k != i ==> !carries_payload(#[trigger] members[k]),
    ensures
        spec_decode_response(ValueView::Object(members), capacity) matches Ok(response) && Some(
            response.payload,
        ) == payload_of(members[i], capacity),
{
    lemma_fold_single_payload(ResponseSlots::empty(), members, i, capacity);
}

/// An object without a `result` and without an `error`, of which every
/// member can be read on its own, is rejected for its missing payload.
pub proof fn lemma_missing_payload(members: Seq<MemberView>, capacity: nat)
    requires
        all_readable(members, capacity),
        forall|k: int|
            0 <= k < members.len() ==> Key::spec_parse(#[trigger] members[k].key) != Some(
                Key::Result,
            ) && Key::spec_parse(members[k].key) != Some(Key::Error),
    ensures
        spec_decode_response(ValueView::Object(members), capacity) == Err::<
            ResponseView,
            DecodeErrorView,
        >(DecodeErrorView::MissingPayload),
{
    assert forall|k: int| 0 <= k < members.len() implies !carries_payload(
        #[trigger] members[k],
    ) by {
        assert(Key::spec_parse(members[k].key) != Some(Key::Result));
    }
    lemma_fold_no_payload(ResponseSlots::empty(), members, capacity);
}

/// An object whose only payload member is a `result` that holds null, and of
/// which every member can be read on its own, decodes to the null result.
pub proof fn lemma_null_result_alone(members: Seq<MemberView>, i: int, capacity: nat)
    requires
        all_readable(members, capacity),
        0 <= i < members.len(),
        Key::spec_parse(members[i].key) == Some(Key::Result),
        forall|k: int| 0 <= k < members.len() ==> !carries_payload(#[trigger] members[k]),
    ensures
        spec_decode_response(ValueView::Object(members), capacity) matches Ok(response)
            && response.payload == Ok::<ValueView, ErrorView>(ValueView::Null),
{
    lemma_fold_no_payload(ResponseSlots::empty(), members, capacity);
}

/// Slots that differ in the version only are read on alike and finish alike:
/// there is one version, and it is the default.
pub proof fn lemma_fold_version_blind(
    slots: ResponseSlots,
    members: Seq<MemberView>,
    capacity: nat,
)
    ensures
        match (
            slots.fold(members, capacity),
            ResponseSlots { version: Some(Version::V2), ..slots }.fold(members, capacity),
        ) {
            (Ok(plain), Ok(versioned)) => plain.finish() == versioned.finish(),
            (Err(e), Err(f)) => e == f,
            _ => false,
        },
    decreases members.len(),
{
    let marked = ResponseSlots { version: Some(Version::V2), ..slots };
    if members.len() > 0 {
        match slots.step(members[0], capacity) {
            Ok(next) => {
                let other = marked.step(members[0], capacity)->Ok_0;
                if let Some(version) = next.version {
                    assert(version == Version::V2);
                    assert(other.version == Some(Version::V2));
                    assert(other.payload == next.payload);
                    assert(other.null_result == next.null_result);
                    assert(other.id == next.id);
                    assert(other == next);
                } else {
                    assert(other == ResponseSlots { version: Some(Version::V2), ..next });
                    lemma_fold_version_blind(next, members.drop_first(), capacity);
                }
            },
            Err(_) => {},
        }
    }
}

/// An object without the `jsonrpc` member decodes as the same object with
/// the member `"jsonrpc": "2.0"` in front: the version is not required and
/// defaults to 2.0.
pub proof fn lemma_version_is_optional(members: Seq<MemberView>, capacity: nat)
    ensures
        spec_decode_response(ValueView::Object(members), capacity) == spec_decode_response(
            ValueView::Object(
                seq![MemberView { key: "jsonrpc"@, value: Version::V2.spec_encode() }] + members,
            ),
            capacity,
        ),
        spec_decode_response(ValueView::Object(members), capacity) matches Ok(response)
            ==> response.jsonrpc == Version::V2,
{
    Key::lemma_name_parses(Key::JsonRpc);
    let tag = MemberView { key: "jsonrpc"@, value: Version::V2.spec_encode() };
    let start = ResponseSlots::empty();
    let marked = ResponseSlots { version: Some(Version::V2), ..start };
    assert(start.step(tag, capacity) == Ok::<ResponseSlots, DecodeErrorView>(marked));
    lemma_fold_one(start, tag, capacity);
    lemma_fold_concat(start, seq![tag], members, capacity);
    lemma_fold_version_blind(start, members, capacity);
}

/// Reading members of which none is named `id` leaves the identifier slot
/// as it was.
pub proof fn lemma_fold_no_id(slots: ResponseSlots, members: Seq<MemberView>, capacity: nat)
    requires
        forall|k: int|
            0 <= k < members.len() ==> Key::spec_parse(#[trigger] members[k].key) != Some(Key::Id),
    ensures
        slots.fold(members, capacity) matches Ok(last) ==> last.id == slots.id,
    decreases members.len(),
{
    if members.len() > 0 {
        assert(Key::spec_parse(members[0].key) != Some(Key::Id));
        if let Ok(next) = slots.step(members[0], capacity) {
            let rest = members.drop_first();
            assert forall|k: int| 0 <= k < rest.len() implies Key::spec_parse(
                #[trigger] rest[k].key,
            ) != Some(Key::Id) by {
                assert(rest[k] == members[k + 1]);
            }
            lemma_fold_no_id(next, rest, capacity);
        }
    }
}

/// Reading members of which exactly one is named `id` leaves the identifier
/// that this member holds, wherever it stands.
pub proof fn lemma_fold_single_id(
    slots: ResponseSlots,
    members: Seq<MemberView>,
    d: int,
    capacity: nat,
)
    requires
        0 <= d < members.len(),
        Key::spec_parse(members[d].key) == Some(Key::Id),
        forall|k: int|
            0 <= k < members.len() && k != d ==> Key::spec_parse(#[trigger] members[k].key)
                != Some(Key::Id),
    ensures
        slots.fold(members, capacity) matches Ok(last) ==> Id::spec_decode_optional(
            members[d].value,
        ) == Ok::<Option<IdView>, DecodeErrorView>(last.id),
    decreases members.len(),
{
    if let Ok(next) = slots.step(members[0], capacity) {
        let rest = members.drop_first();
        if d == 0 {
            assert forall|k: int| 0 <= k < rest.len() implies Key::spec_parse(
                #[trigger] rest[k].key,
            ) != Some(Key::Id) by {
                assert(rest[k] == members[k + 1]);
            }
            lemma_fold_no_id(next, rest, capacity);
        } else {
            assert(rest[d - 1] == members[d]);
            assert forall|k: int| 0 <= k < rest.len() && k != d - 1 implies Key::spec_parse(
                #[trigger] rest[k].key,
            ) != Some(Key::Id) by {
                assert(rest[k] == members[k + 1]);
            }
            lemma_fold_single_id(next, rest, d - 1, capacity);
        }
    }
}

/// Whether no two members stand for the same member of a response.
pub open spec fn each_named_once(members: Seq<MemberView>) -> bool {
    forall|i: int, j: int|
        0 <= i < j < members.len() ==> Key::spec_parse(#[trigger] members[i].key)
            != Key::spec_parse(#[trigger] members[j].key)
}

/// Whether two sequences hold the same members, in whatever order.
pub open spec fn same_members(a: Seq<MemberView>, b: Seq<MemberView>) -> bool {
    forall|m: MemberView| a.contains(m) <==> b.contains(m)
}

/// A member of one sequence stands somewhere in another that holds the same
/// members.
pub proof fn lemma_member_stands_in(a: Seq<MemberView>, b: Seq<MemberView>, i: int) -> (j: int)
    requires
        same_members(a, b),
        0 <= i < a.len(),
    ensures
        0 <= j < b.len(),
        b[j] == a[i],
{
    assert(a.contains(a[i]));
    assert(b.contains(a[i]));
    choose|j: int| 0 <= j < b.len() && b[j] == a[i]
}

/// Where each member is named once, two places with the same name are one
/// place.
pub proof fn lemma_named_once(members: Seq<MemberView>, i: int, j: int)
    requires
        each_named_once(members),
        0 <= i < members.len(),
        0 <= j < members.len(),
        Key::spec_parse(members[i].key) == Key::spec_parse(members[j].key),
    ensures
        i == j,
{
    if i < j {
        assert(Key::spec_parse(members[i].key) != Key::spec_parse(members[j].key));
    } else if j < i {
        assert(Key::spec_parse(members[j].key) != Key::spec_parse(members[i].key));
    }
}

/// Two sequences of the same members, each named once, leave the same
/// identifier.
pub proof fn lemma_same_id(a: Seq<MemberView>, b: Seq<MemberView>, capacity: nat)
    requires
        each_named_once(a),
        each_named_once(b),
        same_members(a, b),
        ResponseSlots::empty().fold(a, capacity) is Ok,
        ResponseSlots::empty().fold(b, capacity) is Ok,
    ensures
        ResponseSlots::empty().fold(a, capacity)->Ok_0.id == ResponseSlots::empty().fold(
            b,
            capacity,
        )->Ok_0.id,
{
    let start = ResponseSlots::empty();
    if exists|d: int| 0 <= d < a.len() && Key::spec_parse(#[trigger] a[d].key) == Some(Key::Id) {
        let d = choose|d: int|
            0 <= d < a.len() && Key::spec_parse(#[trigger] a[d].key) == Some(Key::Id);
        let e = lemma_member_stands_in(a, b, d);
        assert forall|k: int| 0 <= k < a.len() && k != d implies Key::spec_parse(
            #[trigger] a[k].key,
        ) != Some(Key::Id) by {
            if Key::spec_parse(a[k].key) == Some(Key::Id) {
                lemma_named_once(a, k, d);
            }
        }
        assert forall|k: int| 0 <= k < b.len() && k != e implies Key::spec_parse(
            #[trigger] b[k].key,
        ) != Some(Key::Id) by {
            if Key::spec_parse(b[k].key) == Some(Key::Id) {
                lemma_named_once(b, k, e);
            }
        }
        lemma_fold_single_id(start, a, d, capacity);
        lemma_fold_single_id(start, b, e, capacity);
    } else {
        assert forall|k: int| 0 <= k < b.len() implies Key::spec_parse(#[trigger] b[k].key)
            != Some(Key::Id) by {
            let t = lemma_member_stands_in(b, a, k);
            assert(Key::spec_parse(a[t].key) != Some(Key::Id));
        }
        lemma_fold_no_id(start, a, capacity);
        lemma_fold_no_id(start, b, capacity);
    }
}

/// The order of the members does not matter: two objects that hold the same
/// members, each named once and each readable on its own, decode alike,
/// whether to a response or to a failure.
pub proof fn lemma_order_is_irrelevant(a: Seq<MemberView>, b: Seq<MemberView>, capacity: nat)
    requires
        all_readable(a, capacity),
        each_named_once(a),
        each_named_once(b),
        same_members(a, b),
    ensures
        spec_decode_response(ValueView::Object(a), capacity) == spec_decode_response(
            ValueView::Object(b),
            capacity,
        ),
{
    let start = ResponseSlots::empty();
    assert forall|k: int| 0 <= k < b.len() implies readable(#[trigger] b[k], capacity) by {
        let t = lemma_member_stands_in(b, a, k);
        assert(readable(a[t], capacity));
    }
    if exists|i: int| 0 <= i < a.len() && carries_payload(#[trigger] a[i]) {
        let i = choose|i: int| 0 <= i < a.len() && carries_payload(#[trigger] a[i]);
        let i2 = lemma_member_stands_in(a, b, i);
        if exists|j: int| 0 <= j < a.len() && j != i && carries_payload(#[trigger] a[j]) {
            let j = choose|j: int| 0 <= j < a.len() && j != i && carries_payload(#[trigger] a[j]);
            let j2 = lemma_member_stands_in(a, b, j);
            if i2 == j2 {
                lemma_named_once(a, i, j);
            }
            if i < j {
                lemma_two_payloads_conflict(a, i, j, capacity);
            } else {
                lemma_two_payloads_conflict(a, j, i, capacity);
            }
            if i2 < j2 {
                lemma_two_payloads_conflict(b, i2, j2, capacity);
            } else {
                lemma_two_payloads_conflict(b, j2, i2, capacity);
            }
        } else {
            assert forall|k: int| 0 <= k < a.len() && k != i implies !carries_payload(
                #[trigger] a[k],
            ) by {}
            assert forall|k: int| 0 <= k < b.len() && k != i2 implies !carries_payload(
                #[trigger] b[k],
            ) by {
                if carries_payload(b[k]) {
                    let t = lemma_member_stands_in(b, a, k);
                    assert(carries_payload(a[t]));
                    assert(t == i);
                    lemma_named_once(b, k, i2);
                }
            }
            lemma_fold_single_payload(start, a, i, capacity);
            lemma_fold_single_payload(start, b, i2, capacity);
            lemma_same_id(a, b, capacity);
        }
    } else {
        assert forall|k: int| 0 <= k < a.len() implies !carries_payload(#[trigger] a[k]) by {}
        assert forall|k: int| 0 <= k < b.len() implies !carries_payload(#[trigger] b[k]) by {
            let t = lemma_member_stands_in(b, a, k);
            assert(!carries_payload(a[t]));
        }
        lemma_fold_no_payload(start, a, capacity);
        lemma_fold_no_payload(start, b, capacity);
        lemma_same_id(a, b, capacity);
        let in_a = exists|k: int|
            0 <= k < a.len() && Key::spec_parse(#[trigger] a[k].key) == Some(Key::Result);
        let in_b = exists|k: int|
            0 <= k < b.len() && Key::spec_parse(#[trigger] b[k].key) == Some(Key::Result);
        if in_a {
            let k = choose|k: int|
                0 <= k < a.len() && Key::spec_parse(#[trigger] a[k].key) == Some(Key::Result);
            let t = lemma_member_stands_in(a, b, k);
            assert(Key::spec_parse(b[t].key) == Some(Key::Result));
        }
        if in_b {
            let k = choose|k: int|
                0 <= k < b.len() && Key::spec_parse(#[trigger] b[k].key) == Some(Key::Result);
            let t = lemma_member_stands_in(b, a, k);
            assert(Key::spec_parse(a[t].key) == Some(Key::Result));
        }
        assert(in_a == in_b);
    }
}

/// The content of a payload.
pub open spec fn payload_view<const N: usize>(
    payload: Result<Value, Error<Value, BoundedText<N>>>,
) -> Result<ValueView, ErrorView> {
    match payload {
        Ok(result) => Ok(result@),
        Err(error) => Err(error@),
    }
}

impl<const N: usize> View for Response<Value, Value, BoundedText<N>> {
    type V = ResponseView;

    open spec fn view(&self) -> ResponseView {
        ResponseView {
            jsonrpc: self.jsonrpc,
            payload: payload_view(self.payload),
            id: id_view(self.id),
        }
    }
}

/// The state of decoding one response object: four slots that the members
/// of the object fill one by one, in whatever order they arrive.
#[derive(Debug, PartialEq)]
pub struct ResponseDecoder<const N: usize> {
    version: Option<Version>,
    payload: Option<Result<Value, Error<Value, BoundedText<N>>>>,
    null_result: bool,
    id: Option<Id>,
}

impl<const N: usize> View for ResponseDecoder<N> {
    type V = ResponseSlots;

    closed spec fn view(&self) -> ResponseSlots {
        ResponseSlots {
            version: self.version,
            payload: match self.payload {
                Some(payload) => Some(payload_view(payload)),
                None => None,
            },
            null_result: self.null_result,
            id: id_view(self.id),
        }
    }
}

impl<const N: usize> ResponseDecoder<N> {
    /// A decoder that has read nothing yet.
    pub fn new() -> (decoder: Self)
        ensures
            decoder@ == ResponseSlots::empty(),
    {
        ResponseDecoder { version: None, payload: None, null_result: false, id: None }
    }

    /// Reads the value of the member `key`.
    pub fn accept(self, key: Key, value: Value) -> (read: Result<Self, DecodeError>)
        ensures
            read matches Ok(next) ==> self@.accept(key, value@, BoundedText::<N>::spec_capacity())
                == Ok::<ResponseSlots, DecodeErrorView>(next@),
            read matches Err(e) ==> self@.accept(key, value@, BoundedText::<N>::spec_capacity())
                == Err::<ResponseSlots, DecodeErrorView>(e@),
    {
        let ResponseDecoder { version, payload, null_result, id } = self;
        match key {
            Key::JsonRpc => match Version::decode(value) {
                Ok(read) => Ok(ResponseDecoder { version: Some(read), payload, null_result, id }),
                Err(e) => Err(e),
            },
            Key::Result => match value {
                Value::Null => Ok(ResponseDecoder { version, payload, null_result: true, id }),
                other => if payload.is_some() {
                    Err(DecodeError::Conflict)
                } else {
                    Ok(ResponseDecoder { version, payload: Some(Ok(other)), null_result, id })
                },
            },
            Key::Error => match value {
                Value::Null => Ok(ResponseDecoder { version, payload, null_result, id }),
                other => if payload.is_some() {
                    Err(DecodeError::Conflict)
                } else {
                    match Error::<Value, BoundedText<N>>::decode(other) {
                        Ok(error) => Ok(
                            ResponseDecoder {
                                version,
                                payload: Some(Err(error)),
                                null_result,
                                id,
                            },
                        ),
                        Err(e) => Err(e),
                    }
                },
            },
            Key::Id => match Id::decode_optional(value) {
                Ok(read) => Ok(ResponseDecoder { version, payload, null_result, id: read }),
                Err(e) => Err(e),
            },
        }
    }

    /// Reads one more member of the object.
    pub fn member(self, member: Member) -> (read: Result<Self, DecodeError>)
        ensures
            read matches Ok(next) ==> self@.step(member@, BoundedText::<N>::spec_capacity())
                == Ok::<ResponseSlots, DecodeErrorView>(next@),
            read matches Err(e) ==> self@.step(member@, BoundedText::<N>::spec_capacity())
                == Err::<ResponseSlots, DecodeErrorView>(e@),
    {
        let Member { key, value } = member;
        match Key::parse(key.as_str()) {
            Some(known) => self.accept(known, value),
            None => Err(DecodeError::UnknownField { name: key, owner: Subject::Response }),
        }
    }

    /// The response that the members read so far make.
    pub fn finish(self) -> (made: Result<Response<Value, Value, BoundedText<N>>, DecodeError>)
        ensures
            made matches Ok(response) ==> self@.finish() == Ok::<ResponseView, DecodeErrorView>(
                response@,
            ),
            made matches Err(e) ==> self@.finish() == Err::<ResponseView, DecodeErrorView>(e@),
    {
        let ResponseDecoder { version, payload, null_result, id } = self;
        let jsonrpc = match version {
            Some(version) => version,
            None => Version::V2,
        };
        match payload {
            Some(payload) => Ok(Response { jsonrpc, payload, id }),
            None => if null_result {
                Ok(Response { jsonrpc, payload: Ok(Value::Null), id })
            } else {
                Err(DecodeError::MissingPayload)
            },
        }
    }
}

impl<const N: usize> Response<Value, Value, BoundedText<N>> {
    /// Reads a response from a structured value.
    #[verifier::loop_isolation(false)]
    pub fn decode(value: Value) -> (decoded: Result<Self, DecodeError>)
        ensures
            decoded matches Ok(response) ==> spec_decode_response(
                value@,
                BoundedText::<N>::spec_capacity(),
            ) == Ok::<ResponseView, DecodeErrorView>(response@),
            decoded matches Err(e) ==> spec_decode_response(
                value@,
                BoundedText::<N>::spec_capacity(),
            ) == Err::<ResponseView, DecodeErrorView>(e@),
    {
        let ghost capacity = BoundedText::<N>::spec_capacity();
        match value {
            Value::Object(members) => {
                let ghost all = member_views(members@);
                proof {
                    lemma_object_view(members);
                    assert(all.skip(0) == all);
                }
                let mut decoder = ResponseDecoder::<N>::new();
                for member in it: members.into_iter()
                    invariant
                        all == member_views(it.seq()),
                        ResponseSlots::empty().fold(all, capacity) == decoder@.fold(
                            all.skip(it.index() as int),
                            capacity,
                        ),
                {
                    assert(all.skip(it.index() as int).drop_first() == all.skip(
                        it.index() as int + 1,
                    ));
                    match decoder.member(member) {
                        Ok(next) => {
                            decoder = next;
                        },
                        Err(e) => {
                            return Err(e);
                        },
                    }
                }
                decoder.finish()
            },
            other => Err(DecodeError::InvalidType { found: other, expected: Subject::Response }),
        }
    }

    /// Writes a response as a structured value: the three members `jsonrpc`,
    /// `result` or `error`, and `id`, in this order.
    pub fn encode(self) -> (value: Value)
        ensures
            value@ == self@.encode(),
            self@.payload matches Err(error) ==> byte_len(error.message)
                <= BoundedText::<N>::spec_capacity(),
            self@.id matches Some(id) ==> id.valid(),
    {
        let ghost content = self@;
        let mut members: Vec<Member> = Vec::new();
        members.push(Member { key: "jsonrpc".to_owned(), value: self.jsonrpc.encode() });
        match self.payload {
            Ok(result) => {
                members.push(Member { key: "result".to_owned(), value: result });
            },
            Err(error) => {
                members.push(Member { key: "error".to_owned(), value: error.encode() });
            },
        }
        members.push(Member { key: "id".to_owned(), value: encode_optional(&self.id) });
        proof {
            lemma_object_view(members);
            assert(member_views(members@) =~= content.members());
        }
        Value::Object(members)
    }
}

} // verus!
