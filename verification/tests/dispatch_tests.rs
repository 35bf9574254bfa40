//! The command dispatcher: routing, decode and routing errors, the
//! persist-then-publish discipline, sequence correlation and ordering.

use blinkybot::dispatch::{
    dispatch_requests, handle_request, route, setup, Request, Response, ResponseBody, Route,
};
use blinkybot::error::Error;
use blinkybot::expression::ExpressionIndex;
use blinkybot::store::ConfigStore;

fn request(path: &str, seq_no: u32, payload: Vec<u8>) -> Request {
    Request { path: path.as_bytes().to_vec(), seq_no, payload }
}

fn payload_of(r: Response) -> Vec<u8> {
    match r.body {
        ResponseBody::Payload(p) => p,
        ResponseBody::Failure(e) => panic!("expected a payload, got failure {e:?}"),
    }
}

fn failure_of(r: Response) -> Error {
    match r.body {
        ResponseBody::Failure(e) => e,
        ResponseBody::Payload(p) => panic!("expected a failure, got payload {p:?}"),
    }
}

#[test]
fn paths_route_to_their_handlers() {
    assert_eq!(route(&b"ping".to_vec()), Route::Ping);
    assert_eq!(route(&b"expression/set".to_vec()), Route::SetExpression);
    assert_eq!(route(&b"expression/get".to_vec()), Route::GetExpression);
    assert_eq!(route(&b"brightness/get".to_vec()), Route::GetBrightness);
    assert_eq!(route(&b"brightness/set".to_vec()), Route::SetBrightness);
    assert_eq!(route(&b"sensor/get".to_vec()), Route::GetSensor);
    assert_eq!(route(&b"expression/put".to_vec()), Route::Unknown);
    assert_eq!(route(&b"".to_vec()), Route::Unknown);
}

#[test]
fn ping_echoes_its_payload() {
    let mut ctx = setup(ConfigStore::new(1024));
    let payload = postcard::to_allocvec(&123456u32).unwrap();
    let resp = handle_request(&mut ctx, &request("ping", 5, payload.clone())).unwrap();
    assert_eq!(resp.seq_no, 5);
    assert_eq!(payload_of(resp), payload);
}

#[test]
fn unknown_path_answers_routing_error() {
    let mut ctx = setup(ConfigStore::new(1024));
    let resp = handle_request(&mut ctx, &request("reboot", 9, vec![])).unwrap();
    assert_eq!(resp.seq_no, 9);
    assert!(matches!(failure_of(resp), Error::Routing));
}

#[test]
fn malformed_payload_answers_decode_error() {
    let mut ctx = setup(ConfigStore::new(1024));
    // brightness/set with no byte at all.
    let resp = handle_request(&mut ctx, &request("brightness/set", 2, vec![])).unwrap();
    assert!(matches!(failure_of(resp), Error::Decode));
    // expression/set with an unknown mode selector.
    let resp = handle_request(&mut ctx, &request("expression/set", 3, vec![9])).unwrap();
    assert!(matches!(failure_of(resp), Error::Decode));
    // ping with a bare continuation byte.
    let resp = handle_request(&mut ctx, &request("ping", 4, vec![0x80])).unwrap();
    assert!(matches!(failure_of(resp), Error::Decode));
}

#[test]
fn set_expression_then_get_expression() {
    // Scenario: store the blink face [0, 0, 0x1e, 0, 0, 0, 0], read it back.
    let mut ctx = setup(ConfigStore::new(1024));
    let rows: [u16; 7] = [0, 0, 0x1e, 0, 0, 0, 0];
    let mut payload = vec![1u8];  // ExpressionIndex::Blink
    payload.extend_from_slice(&postcard::to_allocvec(&rows).unwrap());
    let resp = handle_request(&mut ctx, &request("expression/set", 1, payload)).unwrap();
    assert_eq!(resp.seq_no, 1);
    assert_eq!(payload_of(resp), Vec::<u8>::new());

    let resp = handle_request(&mut ctx, &request("expression/get", 2, vec![1u8])).unwrap();
    assert_eq!(resp.seq_no, 2);
    assert_eq!(payload_of(resp), postcard::to_allocvec(&rows).unwrap());
    assert_eq!(ctx.store.get_expression(ExpressionIndex::Blink).pixels, rows);
    // The matching channel saw the new bitmap.
    assert_eq!(ctx.comms.blink_expression.try_current().unwrap().pixels, rows);
}

#[test]
fn failed_brightness_write_reports_storage_and_publishes_nothing() {
    // Scenario: the region cannot take a brightness record, so
    // setBrightness(0x50) must fail, the channel must keep its prior
    // value, and reads must keep the prior (default) brightness.
    let mut ctx = setup(ConfigStore::new(2));
    let before = ctx.comms.brightness_val.try_current().unwrap();
    assert_eq!(before, 0x2f);

    let resp = handle_request(&mut ctx, &request("brightness/set", 7, vec![0x50])).unwrap();
    assert_eq!(resp.seq_no, 7);
    assert!(matches!(failure_of(resp), Error::Storage));
    assert_eq!(ctx.comms.brightness_val.try_current(), Some(0x2f));

    let resp = handle_request(&mut ctx, &request("brightness/get", 8, vec![])).unwrap();
    assert_eq!(payload_of(resp), vec![0x2f]);
}

#[test]
fn successful_brightness_write_publishes_after_persisting() {
    let mut ctx = setup(ConfigStore::new(1024));
    let resp = handle_request(&mut ctx, &request("brightness/set", 1, vec![0x50])).unwrap();
    assert_eq!(payload_of(resp), Vec::<u8>::new());
    assert_eq!(ctx.store.get_brightness(), 0x50);
    assert_eq!(ctx.comms.brightness_val.try_current(), Some(0x50));
}

#[test]
fn setup_seeds_channels_from_the_store() {
    let mut store = ConfigStore::new(1024);
    store.set_brightness(0x11).unwrap();
    let ctx = setup(store);
    assert_eq!(ctx.comms.brightness_val.try_current(), Some(0x11));
    // Unwritten bitmap slots seed their defaults.
    let seeded = ctx.comms.blink_expression.try_current().unwrap();
    assert_eq!(seeded.pixels[2], 0b011_1100_0001_1110);
    // The sensor channel stays empty until the sampling task publishes.
    assert_eq!(ctx.comms.adc_val.try_current(), None);
}

#[test]
fn sensor_read_suspends_until_published_then_answers() {
    let mut ctx = setup(ConfigStore::new(1024));
    assert!(handle_request(&mut ctx, &request("sensor/get", 1, vec![])).is_none());
    ctx.comms.adc_val.publish(0x234);
    let resp = handle_request(&mut ctx, &request("sensor/get", 1, vec![])).unwrap();
    assert_eq!(payload_of(resp), postcard::to_allocvec(&0x234u16).unwrap());
}

#[test]
fn responses_carry_matching_sequence_numbers_in_order() {
    let mut ctx = setup(ConfigStore::new(1024));
    ctx.comms.adc_val.publish(99);
    let requests = vec![
        request("ping", 1, postcard::to_allocvec(&7u32).unwrap()),
        request("brightness/set", 2, vec![0x41]),
        request("sensor/get", 3, vec![]),
        request("no/such/path", 4, vec![]),
        request("brightness/get", 5, vec![]),
        request("expression/get", 6, vec![0]),
    ];
    let responses = dispatch_requests(&mut ctx, &requests);
    assert_eq!(responses.len(), requests.len());
    for (i, resp) in responses.iter().enumerate() {
        assert_eq!(resp.seq_no, requests[i].seq_no);
    }
}

#[test]
fn blocked_handler_blocks_the_queue_behind_it() {
    let mut ctx = setup(ConfigStore::new(1024));
    // The sensor has never published, so request 2 suspends forever and
    // request 3 is never reached; only request 1 is answered.
    let requests = vec![
        request("ping", 1, vec![5]),
        request("sensor/get", 2, vec![]),
        request("ping", 3, vec![6]),
    ];
    let responses = dispatch_requests(&mut ctx, &requests);
    assert_eq!(responses.len(), 1);
    assert_eq!(responses[0].seq_no, 1);
}
