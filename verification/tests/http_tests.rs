use webserver::http::{
    build_response, classify_request, content_file_for, delay_secs_for, status_line_for,
    usize_to_dec, Route,
};
use webserver::pool::{ThreadPool, WorkerPhase};
use webserver::queue::RecvOutcome;

#[test]
fn decimal_rendering_is_exact() {
    assert_eq!(usize_to_dec(0), "0");
    assert_eq!(usize_to_dec(7), "7");
    assert_eq!(usize_to_dec(10), "10");
    assert_eq!(usize_to_dec(105), "105");
    assert_eq!(usize_to_dec(1234), "1234");
}

#[test]
fn response_has_fixed_format() {
    let r = build_response("HTTP/1.1 200 OK", String::from("hello"));
    assert_eq!(r, "HTTP/1.1 200 OK\r\nContent-Length: 5\r\n\r\nhello");
}

#[test]
fn response_with_empty_body() {
    let r = build_response("HTTP/1.1 404 NOT FOUND", String::new());
    assert_eq!(r, "HTTP/1.1 404 NOT FOUND\r\nContent-Length: 0\r\n\r\n");
}

#[test]
fn content_length_counts_bytes_not_chars() {
    // 'é' takes two bytes in UTF-8.
    let r = build_response("HTTP/1.1 200 OK", String::from("h\u{e9}llo"));
    assert_eq!(r, "HTTP/1.1 200 OK\r\nContent-Length: 6\r\n\r\nh\u{e9}llo");
}

#[test]
fn routes_classify_exactly() {
    assert_eq!(classify_request("GET / HTTP/1.1"), Route::Root);
    assert_eq!(classify_request("GET /sleep HTTP/1.1"), Route::Sleep);
    assert_eq!(classify_request("GET /missing HTTP/1.1"), Route::NotFound);
    assert_eq!(classify_request(""), Route::NotFound);
    assert_eq!(classify_request("POST / HTTP/1.1"), Route::NotFound);
}

#[test]
fn route_tables_are_fixed() {
    assert_eq!(status_line_for(&Route::Root), "HTTP/1.1 200 OK");
    assert_eq!(status_line_for(&Route::Sleep), "HTTP/1.1 200 OK");
    assert_eq!(status_line_for(&Route::NotFound), "HTTP/1.1 404 NOT FOUND");
    assert_eq!(content_file_for(&Route::Root), "hello.html");
    assert_eq!(content_file_for(&Route::Sleep), "hello.html");
    assert_eq!(content_file_for(&Route::NotFound), "404.html");
    assert_eq!(delay_secs_for(&Route::Root), 0);
    assert_eq!(delay_secs_for(&Route::Sleep), 8);
    assert_eq!(delay_secs_for(&Route::NotFound), 0);
}

#[test]
fn fast_response_overtakes_slow_with_spare_workers() {
    // Two connections, the first on the slow route, the second on the fast
    // one, served by a pool of four: the fast request's response is complete
    // before the slow request's.
    let slow_route = classify_request("GET /sleep HTTP/1.1");
    let fast_route = classify_request("GET / HTTP/1.1");
    assert_eq!(slow_route, Route::Sleep);
    assert_eq!(fast_route, Route::Root);

    let mut pool = ThreadPool::new(4).unwrap();
    let slow_job = pool.execute().unwrap();
    let fast_job = pool.execute().unwrap();
    assert_eq!(pool.worker_recv(0), RecvOutcome::Job(slow_job));
    assert_eq!(pool.worker_recv(1), RecvOutcome::Job(fast_job));
    // Both run at once; the fast one finishes while the slow one sleeps.
    pool.worker_finish(1);
    let fast_response = build_response(status_line_for(&fast_route), String::from("home"));
    assert_eq!(pool.worker_phase(0), WorkerPhase::Running(slow_job));
    pool.worker_finish(0);
    let slow_response = build_response(status_line_for(&slow_route), String::from("home"));
    pool.shutdown();
    assert_eq!(pool.executed_jobs().as_slice(), &[fast_job, slow_job]);
    assert_eq!(fast_response, "HTTP/1.1 200 OK\r\nContent-Length: 4\r\n\r\nhome");
    assert_eq!(slow_response, "HTTP/1.1 200 OK\r\nContent-Length: 4\r\n\r\nhome");
}

#[test]
fn fast_request_blocks_behind_slow_on_single_worker() {
    // The same two connections on a pool of one: the fast request cannot be
    // delivered until the slow one has completed.
    let mut pool = ThreadPool::new(1).unwrap();
    let slow_job = pool.execute().unwrap();
    let fast_job = pool.execute().unwrap();
    assert_eq!(pool.worker_recv(0), RecvOutcome::Job(slow_job));
    assert_eq!(pool.worker_phase(0), WorkerPhase::Running(slow_job));
    assert_eq!(pool.pending(), 1);
    pool.worker_finish(0);
    assert_eq!(pool.worker_recv(0), RecvOutcome::Job(fast_job));
    pool.worker_finish(0);
    pool.shutdown();
    assert_eq!(pool.executed_jobs().as_slice(), &[slow_job, fast_job]);
}
