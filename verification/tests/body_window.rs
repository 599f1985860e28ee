use tiny_http::common::status_code::StatusCode;
use tiny_http::response::body_window::BodyWindow;
use tiny_http::response::Response;

fn copy_through(body: &[u8], chunk: usize, mut window: BodyWindow) -> Vec<u8> {
    let mut out = Vec::new();
    for part in body.chunks(chunk) {
        if window.is_done() {
            break;
        }
        let (start, end) = window.feed(part.len());
        out.extend_from_slice(&part[start..end]);
    }
    out
}

#[test]
fn window_sends_the_range_whatever_the_chunks() {
    let body: Vec<u8> = (0u8..20).collect();
    for chunk in 1..25 {
        assert_eq!(copy_through(&body, chunk, BodyWindow::new(5, Some(4))), vec![5u8, 6, 7, 8]);
        assert_eq!(copy_through(&body, chunk, BodyWindow::new(0, None)), body);
        assert_eq!(copy_through(&body, chunk, BodyWindow::new(18, Some(10))), vec![18u8, 19]);
        assert_eq!(copy_through(&body, chunk, BodyWindow::new(30, None)), Vec::<u8>::new());
    }
}

#[test]
fn window_feed_bounds() {
    let mut w = BodyWindow::new(3, Some(2));
    assert_eq!(w.feed(2), (2, 2));
    assert_eq!(w.pending_skip(), 1);
    assert_eq!(w.feed(10), (1, 3));
    assert!(w.is_done());
    assert_eq!(w.feed(10), (0, 0));
}

#[test]
fn window_of_a_response() {
    let mut r = Response::new(StatusCode(200), vec![], std::io::Cursor::new(vec![7u8; 10]), Some(10), None);
    let w = BodyWindow::for_response(&r);
    assert_eq!(w.pending_skip(), 0);
    assert!(!w.is_done());
    r.apply_range(tiny_http::common::range_header::RangeOutcome::Partial { first: 2, last: 3 });
    let mut w = BodyWindow::for_response(&r);
    assert_eq!(w.pending_skip(), 2);
    assert_eq!(w.feed(10), (2, 4));
    assert!(w.is_done());
}
