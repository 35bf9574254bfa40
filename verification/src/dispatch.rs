//! Ordered command dispatch: the single entry point for externally
//! initiated, sequence-numbered requests.
//!
//! Each request names a path, carries a sequence number, and an encoded
//! payload. Routing is by path; an unknown path answers with a routing
//! error and a payload that fails to decode answers with a decode error,
//! and neither stops the dispatcher. Handlers that both persist and
//! broadcast persist first and publish only after the persist succeeded, so
//! the broadcast channels always reflect durably stored configuration.
//! Responses carry the request's sequence number, and requests are answered
//! strictly in the order received.

use vstd::prelude::*;

use crate::codec::{
    index_from_tag, push_varint, spec_take_rows, spec_take_varint, spec_tag_index, spec_varint,
    take_rows, take_varint, ConfigKey, ConfigValueModel,
};
use crate::error::Error;
use crate::expression::{Expression, ExpressionIndex, SetExpression};
use crate::hub::{ChannelModel, Comms};
use crate::log::{spec_append_records, LogModel};
use crate::store::{spec_can_store, ConfigStore};

verus! {

/// One externally initiated request: a routing path, the caller's sequence
/// number, and the encoded payload for the handler.
pub struct Request {
    pub path: Vec<u8>,
    pub seq_no: u32,
    pub payload: Vec<u8>,
}

/// What a request is mathematically.
#[verifier::ext_equal]
pub struct RequestModel {
    pub path: Seq<u8>,
    pub seq_no: u32,
    pub payload: Seq<u8>,
}

impl View for Request {
    type V = RequestModel;

    open spec fn view(&self) -> RequestModel {
        RequestModel { path: self.path@, seq_no: self.seq_no, payload: self.payload@ }
    }
}

/// A handler's answer: an encoded payload on success, a structured error
/// otherwise.
pub enum ResponseBody {
    Payload(Vec<u8>),
    Failure(Error),
}

/// One response, tagged with the sequence number of the request it answers.
pub struct Response {
    pub seq_no: u32,
    pub body: ResponseBody,
}

/// What a response body is mathematically.
#[verifier::ext_equal]
pub enum ResponseBodyModel {
    Payload(Seq<u8>),
    Failure(Error),
}

/// What a response is mathematically.
#[verifier::ext_equal]
pub struct ResponseModel {
    pub seq_no: u32,
    pub body: ResponseBodyModel,
}

impl View for ResponseBody {
    type V = ResponseBodyModel;

    open spec fn view(&self) -> ResponseBodyModel {
        match self {
            ResponseBody::Payload(p) => ResponseBodyModel::Payload(p@),
            ResponseBody::Failure(e) => ResponseBodyModel::Failure(*e),
        }
    }
}

impl View for Response {
    type V = ResponseModel;

    open spec fn view(&self) -> ResponseModel {
        ResponseModel { seq_no: self.seq_no, body: self.body@ }
    }
}

/// The handler a path routes to.
#[derive(Clone, Copy, Debug, PartialEq, Eq, Structural)]
pub enum Route {
    Ping,
    SetExpression,
    GetExpression,
    GetBrightness,
    SetBrightness,
    GetSensor,
    Unknown,
}

/// The bytes of the path "ping".
pub open spec fn spec_path_ping() -> Seq<u8> {
    seq![0x70u8, 0x69u8, 0x6eu8, 0x67u8]
}

/// The bytes of the path "expression/set".
pub open spec fn spec_path_expression_set() -> Seq<u8> {
    seq![
        0x65u8,
        0x78u8,
        0x70u8,
        0x72u8,
        0x65u8,
        0x73u8,
        0x73u8,
        0x69u8,
        0x6fu8,
        0x6eu8,
        0x2fu8,
        0x73u8,
        0x65u8,
        0x74u8,
    ]
}

/// The bytes of the path "expression/get".
pub open spec fn spec_path_expression_get() -> Seq<u8> {
    seq![
        0x65u8,
        0x78u8,
        0x70u8,
        0x72u8,
        0x65u8,
        0x73u8,
        0x73u8,
        0x69u8,
        0x6fu8,
        0x6eu8,
        0x2fu8,
        0x67u8,
        0x65u8,
        0x74u8,
    ]
}

/// The bytes of the path "brightness/get".
pub open spec fn spec_path_brightness_get() -> Seq<u8> {
    seq![
        0x62u8,
        0x72u8,
        0x69u8,
        0x67u8,
        0x68u8,
        0x74u8,
        0x6eu8,
        0x65u8,
        0x73u8,
        0x73u8,
        0x2fu8,
        0x67u8,
        0x65u8,
        0x74u8,
    ]
}

/// The bytes of the path "brightness/set".
pub open spec fn spec_path_brightness_set() -> Seq<u8> {
    seq![
        0x62u8,
        0x72u8,
        0x69u8,
        0x67u8,
        0x68u8,
        0x74u8,
        0x6eu8,
        0x65u8,
        0x73u8,
        0x73u8,
        0x2fu8,
        0x73u8,
        0x65u8,
        0x74u8,
    ]
}

/// The bytes of the path "sensor/get".
pub open spec fn spec_path_sensor_get() -> Seq<u8> {
    seq![0x73u8, 0x65u8, 0x6eu8, 0x73u8, 0x6fu8, 0x72u8, 0x2fu8, 0x67u8, 0x65u8, 0x74u8]
}

/// Where a path routes: to one of the six handlers, or nowhere.
pub open spec fn spec_route(path: Seq<u8>) -> Route {
    if path == spec_path_ping() {
        Route::Ping
    } else if path == spec_path_expression_set() {
        Route::SetExpression
    } else if path == spec_path_expression_get() {
        Route::GetExpression
    } else if path == spec_path_brightness_get() {
        Route::GetBrightness
    } else if path == spec_path_brightness_set() {
        Route::SetBrightness
    } else if path == spec_path_sensor_get() {
        Route::GetSensor
    } else {
        Route::Unknown
    }
}

/// Compares a path against a fixed pattern.
fn path_is(path: &Vec<u8>, pattern: &Vec<u8>) -> (r: bool)
    ensures
        r == (path@ == pattern@),
{
    crate::log::bytes_eq(path, pattern)
}

/// Routes a path to its handler.
pub fn route(path: &Vec<u8>) -> (r: Route)
    ensures
        r == spec_route(path@),
{
    let ping: Vec<u8> = vec![0x70u8, 0x69u8, 0x6eu8, 0x67u8];
    let expression_set: Vec<u8> = vec![
        0x65u8, 0x78u8, 0x70u8, 0x72u8, 0x65u8, 0x73u8, 0x73u8, 0x69u8, 0x6fu8, 0x6eu8, 0x2fu8,
        0x73u8, 0x65u8, 0x74u8,
    ];
    let expression_get: Vec<u8> = vec![
        0x65u8, 0x78u8, 0x70u8, 0x72u8, 0x65u8, 0x73u8, 0x73u8, 0x69u8, 0x6fu8, 0x6eu8, 0x2fu8,
        0x67u8, 0x65u8, 0x74u8,
    ];
    let brightness_get: Vec<u8> = vec![
        0x62u8, 0x72u8, 0x69u8, 0x67u8, 0x68u8, 0x74u8, 0x6eu8, 0x65u8, 0x73u8, 0x73u8, 0x2fu8,
        0x67u8, 0x65u8, 0x74u8,
    ];
    let brightness_set: Vec<u8> = vec![
        0x62u8, 0x72u8, 0x69u8, 0x67u8, 0x68u8, 0x74u8, 0x6eu8, 0x65u8, 0x73u8, 0x73u8, 0x2fu8,
        0x73u8, 0x65u8, 0x74u8,
    ];
    let sensor_get: Vec<u8> = vec![
        0x73u8, 0x65u8, 0x6eu8, 0x73u8, 0x6fu8, 0x72u8, 0x2fu8, 0x67u8, 0x65u8, 0x74u8,
    ];
    proof {
        assert(ping@ =~= spec_path_ping());
        assert(expression_set@ =~= spec_path_expression_set());
        assert(expression_get@ =~= spec_path_expression_get());
        assert(brightness_get@ =~= spec_path_brightness_get());
        assert(brightness_set@ =~= spec_path_brightness_set());
        assert(sensor_get@ =~= spec_path_sensor_get());
    }
    if path_is(path, &ping) {
        Route::Ping
    } else if path_is(path, &expression_set) {
        Route::SetExpression
    } else if path_is(path, &expression_get) {
        Route::GetExpression
    } else if path_is(path, &brightness_get) {
        Route::GetBrightness
    } else if path_is(path, &brightness_set) {
        Route::SetBrightness
    } else if path_is(path, &sensor_get) {
        Route::GetSensor
    } else {
        Route::Unknown
    }
}

/// Reads a whole payload as one unsigned 32-bit varint; bytes past it are
/// ignored, as the transport decoder ignores a longer buffer.
pub open spec fn spec_decode_u32(s: Seq<u8>) -> Option<u32> {
    match spec_take_varint(s, 5) {
        None => None,
        Some(vl) => if vl.0 <= u32::MAX as nat {
            Some(vl.0 as u32)
        } else {
            None
        },
    }
}

/// Decodes an unsigned 32-bit payload.
pub fn decode_u32(data: &Vec<u8>) -> (r: Option<u32>)
    ensures
        r == spec_decode_u32(data@),
{
    proof {
        assert(data@.skip(0int) =~= data@);
    }
    match take_varint(data, 0, 5) {
        None => None,
        Some((v, _)) => {
            if v <= 0xFFFF_FFFF {
                Some(v as u32)
            } else {
                None
            }
        },
    }
}

/// Reads a payload as a display-mode selector: its variant number as a
/// varint.
pub open spec fn spec_decode_index(s: Seq<u8>) -> Option<ExpressionIndex> {
    match spec_take_varint(s, 5) {
        None => None,
        Some(vl) => spec_tag_index(vl.0),
    }
}

/// Decodes a display-mode selector payload.
pub fn decode_index(data: &Vec<u8>) -> (r: Option<ExpressionIndex>)
    ensures
        r == spec_decode_index(data@),
{
    proof {
        assert(data@.skip(0int) =~= data@);
    }
    match take_varint(data, 0, 5) {
        None => None,
        Some((tag, _)) => index_from_tag(tag),
    }
}

/// Reads a payload as a set-expression request: the display-mode selector,
/// then the seven bitmap rows.
pub open spec fn spec_decode_set_expression(s: Seq<u8>) -> Option<(ExpressionIndex, Seq<u16>)> {
    match spec_take_varint(s, 5) {
        None => None,
        Some(vl) => match spec_tag_index(vl.0) {
            None => None,
            Some(index) => match spec_take_rows(s.skip(vl.1 as int), 7) {
                None => None,
                Some(rl) => Some((index, rl.0)),
            },
        },
    }
}

/// Decodes a set-expression payload.
pub fn decode_set_expression(data: &Vec<u8>) -> (r: Option<SetExpression>)
    ensures
        match r {
            None => spec_decode_set_expression(data@) is None,
            Some(se) => spec_decode_set_expression(data@) == Some((se.index, se.expression.pixels@)),
        },
{
    proof {
        assert(data@.skip(0int) =~= data@);
    }
    match take_varint(data, 0, 5) {
        None => None,
        Some((tag, np)) => match index_from_tag(tag) {
            None => None,
            Some(index) => {
                proof {
                    crate::codec::lemma_take_varint_bound(data@, 5);
                }
                match take_rows(data, np) {
                    None => None,
                    Some((expression, _)) => Some(SetExpression { index, expression }),
                }
            },
        },
    }
}

/// Reads a payload as a brightness byte; bytes past it are ignored.
pub open spec fn spec_decode_u8(s: Seq<u8>) -> Option<u8> {
    if s.len() >= 1 {
        Some(s[0])
    } else {
        None
    }
}

/// Decodes a brightness payload.
pub fn decode_u8(data: &Vec<u8>) -> (r: Option<u8>)
    ensures
        r == spec_decode_u8(data@),
{
    if data.len() >= 1 {
        Some(data[0])
    } else {
        None
    }
}

/// A bitmap channel seen through its rows: the same revision, cursors and
/// capacity, with the value reduced to the bitmap's row sequence.
pub open spec fn spec_chan_rows(m: ChannelModel<Expression>) -> ChannelModel<Seq<u16>> {
    ChannelModel {
        value: match m.value {
            Some(e) => Some(e.pixels@),
            None => None::<Seq<u16>>,
        },
        revision: m.revision,
        cursors: m.cursors,
        capacity: m.capacity,
    }
}

/// What the dispatch state is mathematically: the store's log and the six
/// broadcast channels.
#[verifier::ext_equal]
pub struct ContextModel {
    pub store: LogModel,
    pub default_expression: ChannelModel<Seq<u16>>,
    pub blink_expression: ChannelModel<Seq<u16>>,
    pub friend_expression: ChannelModel<Seq<u16>>,
    pub friend_blink_expression: ChannelModel<Seq<u16>>,
    pub adc_val: ChannelModel<u16>,
    pub brightness_val: ChannelModel<u8>,
}

/// Everything a handler may read or write: the configuration store, owned
/// by the dispatch task alone, and the broadcast channels.
pub struct Context {
    pub store: ConfigStore,
    pub comms: Comms,
}

impl View for Context {
    type V = ContextModel;

    open spec fn view(&self) -> ContextModel {
        ContextModel {
            store: self.store@,
            default_expression: spec_chan_rows(self.comms.default_expression@),
            blink_expression: spec_chan_rows(self.comms.blink_expression@),
            friend_expression: spec_chan_rows(self.comms.friend_expression@),
            friend_blink_expression: spec_chan_rows(self.comms.friend_blink_expression@),
            adc_val: self.comms.adc_val@,
            brightness_val: self.comms.brightness_val@,
        }
    }
}

impl Context {
    /// The store and every channel are well-formed.
    pub open spec fn wf(self) -> bool {
        &&& self.store.wf()
        &&& self.comms.wf()
    }
}

/// A successful response carrying `p`.
pub open spec fn spec_reply(seq_no: u32, p: Seq<u8>) -> ResponseModel {
    ResponseModel { seq_no, body: ResponseBodyModel::Payload(p) }
}

/// An error response carrying `e`.
pub open spec fn spec_refuse(seq_no: u32, e: Error) -> ResponseModel {
    ResponseModel { seq_no, body: ResponseBodyModel::Failure(e) }
}

/// The bitmap channel for a display mode, updated with newly published
/// rows.
pub open spec fn spec_publish_rows(
    cm: ContextModel,
    index: ExpressionIndex,
    rows: Seq<u16>,
) -> ContextModel {
    match index {
        ExpressionIndex::Default => ContextModel {
            default_expression: cm.default_expression.published(rows),
            ..cm
        },
        ExpressionIndex::Blink => ContextModel {
            blink_expression: cm.blink_expression.published(rows),
            ..cm
        },
        ExpressionIndex::Friend => ContextModel {
            friend_expression: cm.friend_expression.published(rows),
            ..cm
        },
        ExpressionIndex::FriendBlink => ContextModel {
            friend_blink_expression: cm.friend_blink_expression.published(rows),
            ..cm
        },
    }
}

/// The store's log after one append of `key` and `value`, over the same
/// region.
pub open spec fn spec_store_after_append(
    lm: LogModel,
    key: ConfigKey,
    value: ConfigValueModel,
) -> LogModel {
    LogModel {
        records: spec_append_records(
            lm.records,
            lm.capacity,
            crate::codec::spec_encode_key(key),
            crate::codec::spec_encode_value(value),
        ),
        capacity: lm.capacity,
    }
}

/// The set-expression handler: persist first; only when the append
/// succeeded, publish the new bitmap and acknowledge; on a storage failure
/// report it and leave every channel untouched, so the channels never show
/// a bitmap the device could forget on reboot.
pub open spec fn spec_handle_set_expression(
    cm: ContextModel,
    seq_no: u32,
    index: ExpressionIndex,
    rows: Seq<u16>,
) -> (ContextModel, Option<ResponseModel>) {
    let key = ConfigKey::ExpressionV0(index);
    let value = ConfigValueModel::ExpressionV0(rows);
    let cm2 = ContextModel { store: spec_store_after_append(cm.store, key, value), ..cm };
    if spec_can_store(cm.store, key, value) {
        (spec_publish_rows(cm2, index, rows), Some(spec_reply(seq_no, Seq::empty())))
    } else {
        (cm2, Some(spec_refuse(seq_no, Error::Storage)))
    }
}

/// The set-brightness handler, with the same persist-then-publish
/// discipline as the set-expression handler.
pub open spec fn spec_handle_set_brightness(cm: ContextModel, seq_no: u32, b: u8) -> (
    ContextModel,
    Option<ResponseModel>,
) {
    let key = ConfigKey::BrightnessV0;
    let value = ConfigValueModel::BrightnessV0(b);
    let cm2 = ContextModel { store: spec_store_after_append(cm.store, key, value), ..cm };
    if spec_can_store(cm.store, key, value) {
        (
            ContextModel { brightness_val: cm2.brightness_val.published(b), ..cm2 },
            Some(spec_reply(seq_no, Seq::empty())),
        )
    } else {
        (cm2, Some(spec_refuse(seq_no, Error::Storage)))
    }
}

/// One request, handled: the next dispatch state and the response. `None`
/// in place of a response means the handler must suspend (a sensor read
/// before the first sensor publish) and the request is retried after the
/// next publish; every other outcome is a response, so the dispatcher
/// never stops.
pub open spec fn spec_handle(cm: ContextModel, req: RequestModel) -> (
    ContextModel,
    Option<ResponseModel>,
) {
    let seq_no = req.seq_no;
    match spec_route(req.path) {
        Route::Ping => (
            cm,
            Some(
                match spec_decode_u32(req.payload) {
                    Some(v) => spec_reply(seq_no, spec_varint(v as nat)),
                    None => spec_refuse(seq_no, Error::Decode),
                },
            ),
        ),
        Route::SetExpression => match spec_decode_set_expression(req.payload) {
            None => (cm, Some(spec_refuse(seq_no, Error::Decode))),
            Some(p) => spec_handle_set_expression(cm, seq_no, p.0, p.1),
        },
        Route::GetExpression => match spec_decode_index(req.payload) {
            None => (cm, Some(spec_refuse(seq_no, Error::Decode))),
            Some(index) => (
                cm,
                Some(
                    spec_reply(
                        seq_no,
                        crate::codec::spec_encode_rows(
                            crate::store::spec_rows_or_default(cm.store.records, index),
                        ),
                    ),
                ),
            ),
        },
        Route::GetBrightness => (
            cm,
            Some(
                spec_reply(
                    seq_no,
                    seq![crate::store::spec_brightness_or_default(cm.store.records)],
                ),
            ),
        ),
        Route::SetBrightness => match spec_decode_u8(req.payload) {
            None => (cm, Some(spec_refuse(seq_no, Error::Decode))),
            Some(b) => spec_handle_set_brightness(cm, seq_no, b),
        },
        Route::GetSensor => match cm.adc_val.value {
            None => (cm, None),
            Some(v) => (cm, Some(spec_reply(seq_no, spec_varint(v as nat)))),
        },
        Route::Unknown => (cm, Some(spec_refuse(seq_no, Error::Routing))),
    }
}

/// Every response a handler produces answers under the request's own
/// sequence number.
pub proof fn lemma_handle_seq(cm: ContextModel, req: RequestModel)
    ensures
        spec_handle(cm, req).1 matches Some(resp) ==> resp.seq_no == req.seq_no,
{
}

/// Handles one request against the live state, exactly as
/// [`spec_handle`] describes.
pub fn handle_request(ctx: &mut Context, req: &Request) -> (r: Option<Response>)
    requires
        old(ctx).wf(),
    ensures
        final(ctx).wf(),
        final(ctx)@ == spec_handle(old(ctx)@, req@).0,
        match (r, spec_handle(old(ctx)@, req@).1) {
            (Some(resp), Some(rm)) => resp@ == rm,
            (None, None) => true,
            _ => false,
        },
        r matches Some(resp) ==> resp.seq_no == req.seq_no,
{
    let seq_no = req.seq_no;
    match route(&req.path) {
        Route::Ping => match decode_u32(&req.payload) {
            Some(v) => {
                let mut out: Vec<u8> = Vec::new();
                push_varint(&mut out, v as u64);
                proof {
                    assert(out@ =~= spec_varint(v as nat));
                }
                Some(Response { seq_no, body: ResponseBody::Payload(out) })
            },
            None => Some(Response { seq_no, body: ResponseBody::Failure(Error::Decode) }),
        },
        Route::SetExpression => match decode_set_expression(&req.payload) {
            None => Some(Response { seq_no, body: ResponseBody::Failure(Error::Decode) }),
            Some(se) => match ctx.store.set_expression(se.index, se.expression) {
                Ok(()) => {
                    match se.index {
                        ExpressionIndex::Default => ctx.comms.default_expression.publish(
                            se.expression,
                        ),
                        ExpressionIndex::Blink => ctx.comms.blink_expression.publish(se.expression),
                        ExpressionIndex::Friend => ctx.comms.friend_expression.publish(
                            se.expression,
                        ),
                        ExpressionIndex::FriendBlink => ctx.comms.friend_blink_expression.publish(
                            se.expression,
                        ),
                    }
                    proof {
                        assert(ctx@ =~= spec_handle(old(ctx)@, req@).0);
                    }
                    Some(Response { seq_no, body: ResponseBody::Payload(Vec::new()) })
                },
                Err(_) => {
                    proof {
                        assert(ctx@ =~= spec_handle(old(ctx)@, req@).0);
                    }
                    Some(Response { seq_no, body: ResponseBody::Failure(Error::Storage) })
                },
            },
        },
        Route::GetExpression => match decode_index(&req.payload) {
            None => Some(Response { seq_no, body: ResponseBody::Failure(Error::Decode) }),
            Some(index) => {
                let e = ctx.store.get_expression(index);
                let mut out: Vec<u8> = Vec::new();
                crate::codec::push_rows(&mut out, &e);
                proof {
                    assert(out@ =~= crate::codec::spec_encode_rows(
                        crate::store::spec_rows_or_default(old(ctx)@.store.records, index),
                    ));
                }
                Some(Response { seq_no, body: ResponseBody::Payload(out) })
            },
        },
        Route::GetBrightness => {
            let b = ctx.store.get_brightness();
            let mut out: Vec<u8> = Vec::new();
            out.push(b);
            proof {
                assert(out@ =~= seq![
                    crate::store::spec_brightness_or_default(old(ctx)@.store.records),
                ]);
            }
            Some(Response { seq_no, body: ResponseBody::Payload(out) })
        },
        Route::SetBrightness => match decode_u8(&req.payload) {
            None => Some(Response { seq_no, body: ResponseBody::Failure(Error::Decode) }),
            Some(b) => match ctx.store.set_brightness(b) {
                Ok(()) => {
                    ctx.comms.brightness_val.publish(b);
                    proof {
                        assert(ctx@ =~= spec_handle(old(ctx)@, req@).0);
                    }
                    Some(Response { seq_no, body: ResponseBody::Payload(Vec::new()) })
                },
                Err(_) => {
                    proof {
                        assert(ctx@ =~= spec_handle(old(ctx)@, req@).0);
                    }
                    Some(Response { seq_no, body: ResponseBody::Failure(Error::Storage) })
                },
            },
        },
        Route::GetSensor => match ctx.comms.adc_val.try_current() {
            None => None,
            Some(v) => {
                let mut out: Vec<u8> = Vec::new();
                push_varint(&mut out, v as u64);
                proof {
                    assert(out@ =~= spec_varint(v as nat));
                }
                Some(Response { seq_no, body: ResponseBody::Payload(out) })
            },
        },
        Route::Unknown => Some(Response { seq_no, body: ResponseBody::Failure(Error::Routing) }),
    }
}

/// Builds the dispatch state at startup: fresh channels, each bitmap
/// channel and the brightness channel seeded with what the store holds (or
/// its default), so render tasks start from durably stored configuration.
/// The sensor channel stays empty until the sampling task publishes.
pub fn setup(store: ConfigStore) -> (r: Context)
    requires
        store.wf(),
    ensures
        r.wf(),
        r@.store == store@,
        r@.default_expression.value == Some(
            crate::store::spec_rows_or_default(store@.records, ExpressionIndex::Default),
        ),
        r@.blink_expression.value == Some(
            crate::store::spec_rows_or_default(store@.records, ExpressionIndex::Blink),
        ),
        r@.friend_expression.value == Some(
            crate::store::spec_rows_or_default(store@.records, ExpressionIndex::Friend),
        ),
        r@.friend_blink_expression.value == Some(
            crate::store::spec_rows_or_default(store@.records, ExpressionIndex::FriendBlink),
        ),
        r@.brightness_val.value == Some(
            crate::store::spec_brightness_or_default(store@.records),
        ),
        r@.adc_val.value is None,
        r@.default_expression.revision == 1,
        r@.blink_expression.revision == 1,
        r@.friend_expression.revision == 1,
        r@.friend_blink_expression.revision == 1,
        r@.brightness_val.revision == 1,
        r@.adc_val.revision == 0,
{
    let mut comms = Comms::new();
    let e0 = store.get_expression(ExpressionIndex::Default);
    comms.default_expression.publish(e0);
    let e1 = store.get_expression(ExpressionIndex::Blink);
    comms.blink_expression.publish(e1);
    let e2 = store.get_expression(ExpressionIndex::Friend);
    comms.friend_expression.publish(e2);
    let e3 = store.get_expression(ExpressionIndex::FriendBlink);
    comms.friend_blink_expression.publish(e3);
    let b = store.get_brightness();
    comms.brightness_val.publish(b);
    Context { store, comms }
}

/// One sequence of requests, handled strictly in order from a starting
/// state: the final state and the responses emitted. A handler that must
/// suspend (a sensor read with nothing yet published) blocks the queue
/// behind it, so the emitted responses are exactly the handled prefix.
pub open spec fn spec_dispatch(cm: ContextModel, reqs: Seq<RequestModel>) -> (
    ContextModel,
    Seq<ResponseModel>,
)
    decreases reqs.len(),
{
    if reqs.len() == 0 {
        (cm, Seq::empty())
    } else {
        let step = spec_handle(cm, reqs[0]);
        match step.1 {
            None => (step.0, Seq::empty()),
            Some(resp) => {
                let rest = spec_dispatch(step.0, reqs.skip(1));
                (rest.0, seq![resp] + rest.1)
            },
        }
    }
}

/// The request models of a batch, in order.
pub open spec fn spec_requests(s: Seq<Request>) -> Seq<RequestModel> {
    s.map_values(|q: Request| q@)
}

/// The response models of a batch, in order.
pub open spec fn spec_responses(s: Seq<Response>) -> Seq<ResponseModel> {
    s.map_values(|p: Response| p@)
}

/// Dispatch ordering: responses are emitted for a prefix of the requests,
/// in order, each under the sequence number of the request it answers —
/// the dispatcher never reorders and never answers twice.
pub proof fn lemma_dispatch_ordering(cm: ContextModel, reqs: Seq<RequestModel>)
    ensures
        spec_dispatch(cm, reqs).1.len() <= reqs.len(),
        forall|i: int|
            0 <= i < spec_dispatch(cm, reqs).1.len() ==> (#[trigger] spec_dispatch(
                cm,
                reqs,
            ).1[i]).seq_no == reqs[i].seq_no,
    decreases reqs.len(),
{
    if reqs.len() == 0 {
    } else {
        let step = spec_handle(cm, reqs[0]);
        match step.1 {
            None => {},
            Some(resp) => {
                lemma_handle_seq(cm, reqs[0]);
                lemma_dispatch_ordering(step.0, reqs.skip(1));
                let rest = spec_dispatch(step.0, reqs.skip(1));
                assert(forall|i: int|
                    0 <= i < rest.1.len() ==> (#[trigger] rest.1[i]).seq_no == reqs.skip(1)[i].seq_no);
                assert(forall|i: int|
                    1 <= i < spec_dispatch(cm, reqs).1.len() ==> (#[trigger] spec_dispatch(
                        cm,
                        reqs,
                    ).1[i]) == rest.1[i - 1]);
            },
        }
    }
}

/// Runs the dispatcher over a batch of requests, strictly in order,
/// stopping only when a handler must suspend with nothing to wake it
/// within the batch.
pub fn dispatch_requests(ctx: &mut Context, requests: &Vec<Request>) -> (r: Vec<Response>)
    requires
        old(ctx).wf(),
    ensures
        final(ctx).wf(),
        final(ctx)@ == spec_dispatch(old(ctx)@, spec_requests(requests@)).0,
        spec_responses(r@) == spec_dispatch(old(ctx)@, spec_requests(requests@)).1,
        r@.len() <= requests@.len(),
        forall|i: int|
            0 <= i < r@.len() ==> (#[trigger] r@[i]).seq_no == requests@[i].seq_no,
{
    let ghost models = spec_requests(requests@);
    let ghost full = spec_dispatch(old(ctx)@, models);
    let mut responses: Vec<Response> = Vec::new();
    let mut i: usize = 0;
    proof {
        assert(models.skip(0int) =~= models);
        assert(spec_responses(responses@) =~= Seq::<ResponseModel>::empty());
    }
    while i < requests.len()
        invariant
            i <= requests@.len(),
            models == spec_requests(requests@),
            models.len() == requests@.len(),
            full == spec_dispatch(old(ctx)@, models),
            ctx.wf(),
            full.0 == spec_dispatch(ctx@, models.skip(i as int)).0,
            full.1 =~= spec_responses(responses@) + spec_dispatch(ctx@, models.skip(i as int)).1,
            responses@.len() == i,
            forall|k: int|
                0 <= k < responses@.len() ==> (#[trigger] responses@[k]).seq_no
                    == requests@[k].seq_no,
        decreases requests@.len() - i,
    {
        let ghost pre = ctx@;
        let ghost remaining = models.skip(i as int);
        proof {
            assert(remaining[0] == models[i as int]);
            assert(remaining.skip(1) =~= models.skip(i + 1 as int));
        }
        match handle_request(ctx, &requests[i]) {
            None => {
                proof {
                    assert(spec_dispatch(pre, remaining).1 =~= Seq::<ResponseModel>::empty());
                    assert(full.1 =~= spec_responses(responses@));
                }
                return responses;
            },
            Some(resp) => {
                let ghost rm = resp@;
                proof {
                    let rest = spec_dispatch(ctx@, models.skip(i + 1 as int));
                    assert(spec_dispatch(pre, remaining).1 =~= seq![rm] + rest.1);
                    assert(spec_responses(responses@.push(resp)) =~= spec_responses(responses@)
                        + seq![rm]);
                    assert(spec_responses(responses@) + (seq![rm] + rest.1) =~= (spec_responses(
                        responses@,
                    ) + seq![rm]) + rest.1);
                }
                responses.push(resp);
            },
        }
        i = i + 1;
    }
    proof {
        assert(models.skip(models.len() as int) =~= Seq::<RequestModel>::empty());
        assert(full.1 =~= spec_responses(responses@));
    }
    responses
}

} // verus!
