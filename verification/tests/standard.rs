use tiny_http::common::status_code::StatusCode;
use tiny_http::response::standard::Standard;
use tiny_http::response::Response;

const STATUS_LIST: [u16; 15] = [100, 200, 201, 204, 400, 404, 405, 408, 413, 414, 417, 431, 500, 501, 505];

fn all_standards() -> [Standard; 15] {
    [
        Standard::Continue100,
        Standard::Ok200,
        Standard::Created201,
        Standard::NoContent204,
        Standard::BadRequest400,
        Standard::NotFound404,
        Standard::MethodNotAllowed405,
        Standard::RequestTimeout408,
        Standard::PayloadTooLarge413,
        Standard::UriTooLong414,
        Standard::ExpectationFailed417,
        Standard::RequestHeaderFieldsTooLarge431,
        Standard::InternalServerError500,
        Standard::NotImplemented501,
        Standard::HttpVersionNotSupported505,
    ]
}

#[test]
fn init_test() {
    let r_list = all_standards();
    assert_eq!(STATUS_LIST.len(), r_list.len());

    let mut count = 0usize;
    for r in r_list {
        match r {
            Standard::Continue100
            | Standard::Ok200
            | Standard::Created201
            | Standard::NoContent204
            | Standard::BadRequest400
            | Standard::NotFound404
            | Standard::MethodNotAllowed405
            | Standard::RequestTimeout408
            | Standard::PayloadTooLarge413
            | Standard::UriTooLong414
            | Standard::ExpectationFailed417
            | Standard::RequestHeaderFieldsTooLarge431
            | Standard::InternalServerError500
            | Standard::NotImplemented501
            | Standard::HttpVersionNotSupported505 => count += 1,
        }
    }
    assert_eq!(count, r_list.len());

    for (status, standard) in STATUS_LIST.iter().zip(r_list.iter()) {
        let resp = Response::from_status(StatusCode(*status));
        let resp_standard = Standard::response(standard);
        assert_eq!(resp.status_code(), resp_standard.status_code(), "status: {status}");
    }
}

#[test]
fn try_from_status_code_test() {
    for n in 100..600u16 {
        let std = Standard::try_from_u16(n);
        if let Ok(std) = std {
            let status_code: StatusCode = match std {
                Standard::Continue100 => 100,
                Standard::Ok200 => 200,
                Standard::Created201 => 201,
                Standard::NoContent204 => 204,
                Standard::BadRequest400 => 400,
                Standard::NotFound404 => 404,
                Standard::MethodNotAllowed405 => 405,
                Standard::RequestTimeout408 => 408,
                Standard::PayloadTooLarge413 => 413,
                Standard::UriTooLong414 => 414,
                Standard::ExpectationFailed417 => 417,
                Standard::RequestHeaderFieldsTooLarge431 => 431,
                Standard::InternalServerError500 => 500,
                Standard::NotImplemented501 => 501,
                Standard::HttpVersionNotSupported505 => 505,
            }
            .into();

            assert_eq!(std, Standard::try_from_status(status_code).unwrap(), "status_code failed: {}", status_code.0);

            let status_code = StatusCode::from(std);
            let std2 = Standard::try_from_status(status_code);
            assert!(std2.is_ok(), "status_code failed: {}", status_code.0);
            assert_eq!(std, std2.unwrap(), "status_code failed: {}", status_code.0);
        }
    }
}

#[test]
fn standard_headers_and_bodies() {
    let r = Standard::response(&Standard::RequestTimeout408);
    let hs = r.headers().unwrap();
    assert_eq!(hs.len(), 1);
    assert_eq!(hs[0].to_string(), "Connection: close");
    assert_eq!(r.data_length(), Some("Request Timeout".len()));
    assert!(Standard::headers(StatusCode(200)).is_none());
    assert_eq!(Standard::try_from_u16(302), Err(()));
}
