use cogposix::backend::MockBackend;
use cogposix::client::{
    buffer_alloc_request, buffer_write_request, model_open_request, parse_empty, parse_handle,
    parse_job_status, parse_stats, tensor_create_request, wait_step,
};
use cogposix::request::Request;
use cogposix::runtime::{Metrics, Runtime, Ticket};
use cogposix::{
    Error, JobStatus, Stats, TensorDesc, GLOBAL_MEMORY, MAX_BUFFER, MAX_JOBS, MAX_OBJECTS,
    MAX_SESSIONS, SESSION_MEMORY,
};

fn call(rt: &mut Runtime, c: u64, r: Request) -> Result<Vec<u8>, Error> {
    rt.request(c, r, &MockBackend)
}
fn handle(rt: &mut Runtime, c: u64, r: Request) -> Result<u64, Error> {
    let body = call(rt, c, r)?;
    parse_handle(&body)
}
fn empty(rt: &mut Runtime, c: u64, r: Request) -> Result<(), Error> {
    let body = call(rt, c, r)?;
    parse_empty(&body)
}
fn model_open(rt: &mut Runtime, c: u64, name: &str) -> Result<u64, Error> {
    let r = model_open_request(name)?;
    handle(rt, c, r)
}
fn buffer_alloc(rt: &mut Runtime, c: u64, size: usize) -> Result<u64, Error> {
    let r = buffer_alloc_request(size)?;
    handle(rt, c, r)
}
fn buffer_write(rt: &mut Runtime, c: u64, b: u64, data: &[u8]) -> Result<(), Error> {
    let r = buffer_write_request(b, data)?;
    empty(rt, c, r)
}
fn buffer_read(rt: &mut Runtime, c: u64, b: u64) -> Result<Vec<u8>, Error> {
    call(rt, c, Request::BufferRead(b))
}
fn tensor_create(rt: &mut Runtime, c: u64, b: u64, desc: TensorDesc) -> Result<u64, Error> {
    let r = tensor_create_request(b, desc)?;
    handle(rt, c, r)
}
fn submit(rt: &mut Runtime, c: u64, model: u64, input: u64, output: u64, delay_ms: u32) -> Result<u64, Error> {
    handle(
        rt,
        c,
        Request::Submit {
            model,
            input,
            output,
            delay_ms,
        },
    )
}
fn job_status(rt: &mut Runtime, c: u64, job: u64) -> Result<(JobStatus, Option<Error>), Error> {
    let body = call(rt, c, Request::JobStatus(job))?;
    parse_job_status(&body)
}
fn stats(rt: &mut Runtime, c: u64) -> Result<Stats, Error> {
    let body = call(rt, c, Request::Stats)?;
    parse_stats(&body)
}
/// The worker finishes a job it took: the mock sees whether cancellation was
/// requested while it ran.
fn complete(rt: &mut Runtime, t: Ticket) {
    let cancelled = rt.is_cancelled(t.job);
    let result = MockBackend.execute(&t.input, t.delay_ms, cancelled);
    rt.finish(t.job, result);
}
/// The worker runs every queued job to its end.
fn drain(rt: &mut Runtime) {
    while let Some(t) = rt.begin() {
        complete(rt, t);
    }
}
/// Polls once: a terminal status ends the wait, anything else times out.
fn poll(rt: &mut Runtime, c: u64, job: u64) -> Result<JobStatus, Error> {
    let (status, error) = job_status(rt, c, job)?;
    wait_step(status, error, true).unwrap()
}
/// Lets the worker run, then waits.
fn wait(rt: &mut Runtime, c: u64, job: u64) -> Result<JobStatus, Error> {
    drain(rt);
    poll(rt, c, job)
}
fn is_empty(m: Metrics) -> bool {
    m.sessions == 0 && m.objects == 0 && m.live_bytes == 0
}

struct Work {
    model: u64,
    input: u64,
    output: u64,
    a: u64,
    b: u64,
}
fn work(rt: &mut Runtime, c: u64) -> Work {
    let model = model_open(rt, c, "mock.increment.v1").unwrap();
    let input = buffer_alloc(rt, c, 4).unwrap();
    let output = buffer_alloc(rt, c, 4).unwrap();
    buffer_write(rt, c, input, &[0, 1, 254, 255]).unwrap();
    let desc = TensorDesc {
        offset: 0,
        shape: vec![2, 2],
    };
    let a = tensor_create(rt, c, input, desc.clone()).unwrap();
    let b = tensor_create(rt, c, output, desc).unwrap();
    Work {
        model,
        input,
        output,
        a,
        b,
    }
}

#[test]
fn two_independent_clients_execute_and_cannot_borrow_handles() {
    let mut rt = Runtime::new();
    let a = rt.connect().unwrap();
    let b = rt.connect().unwrap();
    let w = work(&mut rt, a);
    assert_eq!(buffer_read(&mut rt, b, w.input), Err(Error::Invalid));
    assert_eq!(buffer_read(&mut rt, a, w.model), Err(Error::Invalid));
    assert_eq!(model_open(&mut rt, a, "/tmp/arbitrary-model"), Err(Error::NoModel));
    let job = submit(&mut rt, a, w.model, w.a, w.b, 0).unwrap();
    let z = work(&mut rt, b);
    let other = submit(&mut rt, b, z.model, z.a, z.b, 0).unwrap();
    assert_eq!(wait(&mut rt, a, job), Ok(JobStatus::Completed));
    assert_eq!(wait(&mut rt, b, other), Ok(JobStatus::Completed));
    assert_eq!(buffer_read(&mut rt, a, w.output).unwrap(), vec![1, 2, 255, 0]);
    assert_eq!(buffer_read(&mut rt, b, z.output).unwrap(), vec![1, 2, 255, 0]);
    empty(&mut rt, a, Request::JobRelease(job)).unwrap();
    assert_eq!(job_status(&mut rt, a, job), Err(Error::Invalid));
    rt.disconnect(a);
    rt.disconnect(b);
    assert!(is_empty(rt.metrics()));
}

#[test]
fn tensor_and_job_references_retain_closed_resources() {
    let mut rt = Runtime::new();
    let c = rt.connect().unwrap();
    let w = work(&mut rt, c);
    empty(&mut rt, c, Request::BufferFree(w.input)).unwrap();
    assert_eq!(buffer_read(&mut rt, c, w.input), Err(Error::Invalid));
    assert_eq!(stats(&mut rt, c).unwrap().live_bytes, 8);
    let job = submit(&mut rt, c, w.model, w.a, w.b, 20).unwrap();
    empty(&mut rt, c, Request::ModelClose(w.model)).unwrap();
    empty(&mut rt, c, Request::TensorRelease(w.a)).unwrap();
    empty(&mut rt, c, Request::TensorRelease(w.b)).unwrap();
    wait(&mut rt, c, job).unwrap();
    assert_eq!(buffer_read(&mut rt, c, w.output).unwrap(), vec![1, 2, 255, 0]);
    assert_eq!(stats(&mut rt, c).unwrap().live_bytes, 4);
    empty(&mut rt, c, Request::BufferFree(w.output)).unwrap();
    empty(&mut rt, c, Request::JobRelease(job)).unwrap();
    assert_eq!(stats(&mut rt, c).unwrap().objects, 0);
    assert_eq!(stats(&mut rt, c).unwrap().live_bytes, 0);
    rt.disconnect(c);
    assert!(is_empty(rt.metrics()));
}

#[test]
fn running_cancellation_preserves_lifetimes_and_wait_timeout_is_not_cancellation() {
    let mut rt = Runtime::new();
    let c = rt.connect().unwrap();
    let w = work(&mut rt, c);
    let job = submit(&mut rt, c, w.model, w.a, w.b, 5000).unwrap();
    let ticket = rt.begin().unwrap();
    assert_eq!(job_status(&mut rt, c, job).unwrap().0, JobStatus::Running);
    assert_eq!(poll(&mut rt, c, job), Err(Error::Timeout));
    assert_eq!(buffer_write(&mut rt, c, w.input, &[9; 4]), Err(Error::Busy));
    assert_eq!(buffer_read(&mut rt, c, w.output), Err(Error::Busy));
    assert_eq!(empty(&mut rt, c, Request::JobRelease(job)), Err(Error::Busy));
    empty(&mut rt, c, Request::JobCancel(job)).unwrap();
    complete(&mut rt, ticket);
    assert_eq!(wait(&mut rt, c, job), Err(Error::Cancelled));
    assert_eq!(buffer_read(&mut rt, c, w.output).unwrap(), vec![0; 4]);
    empty(&mut rt, c, Request::JobCancel(job)).unwrap();
    empty(&mut rt, c, Request::JobRelease(job)).unwrap();
    let next = submit(&mut rt, c, w.model, w.a, w.b, 0).unwrap();
    wait(&mut rt, c, next).unwrap();
    assert_eq!(buffer_read(&mut rt, c, w.output).unwrap(), vec![1, 2, 255, 0]);
}

#[test]
fn queued_job_cancels_without_waiting_for_running_work() {
    let mut rt = Runtime::new();
    let a = rt.connect().unwrap();
    let b = rt.connect().unwrap();
    let first = work(&mut rt, a);
    let second = work(&mut rt, b);
    let running = submit(&mut rt, a, first.model, first.a, first.b, 5000).unwrap();
    let ticket = rt.begin().unwrap();
    assert_eq!(job_status(&mut rt, a, running).unwrap().0, JobStatus::Running);
    let queued = submit(&mut rt, b, second.model, second.a, second.b, 0).unwrap();
    assert_eq!(job_status(&mut rt, b, queued).unwrap().0, JobStatus::Queued);
    empty(&mut rt, b, Request::JobCancel(queued)).unwrap();
    assert_eq!(job_status(&mut rt, b, queued).unwrap().0, JobStatus::Cancelled);
    buffer_write(&mut rt, b, second.input, &[3; 4]).unwrap();
    empty(&mut rt, a, Request::JobCancel(running)).unwrap();
    complete(&mut rt, ticket);
    assert_eq!(poll(&mut rt, a, running), Err(Error::Cancelled));
}

#[test]
fn stale_handles_and_overflowing_or_aliased_tensors_are_rejected() {
    let mut rt = Runtime::new();
    let c = rt.connect().unwrap();
    let w = work(&mut rt, c);
    for desc in [
        TensorDesc {
            offset: u64::MAX,
            shape: vec![1],
        },
        TensorDesc {
            offset: 0,
            shape: vec![u64::MAX, 2],
        },
    ] {
        assert_eq!(tensor_create(&mut rt, c, w.input, desc), Err(Error::Invalid));
    }
    assert_eq!(submit(&mut rt, c, w.model, w.a, w.a, 0), Err(Error::Invalid));
    empty(&mut rt, c, Request::TensorRelease(w.a)).unwrap();
    let new = tensor_create(
        &mut rt,
        c,
        w.input,
        TensorDesc {
            offset: 0,
            shape: vec![4],
        },
    )
    .unwrap();
    assert_ne!(new, w.a);
    assert_eq!(submit(&mut rt, c, w.model, w.a, w.b, 0), Err(Error::Invalid));
    assert_eq!(submit(&mut rt, c, w.model, new, w.b, 0), Err(Error::Invalid));
}

#[test]
fn memory_objects_and_sessions_are_bounded() {
    let mut rt = Runtime::new();
    let c = rt.connect().unwrap();
    for _ in 0..8 {
        buffer_alloc(&mut rt, c, MAX_BUFFER).unwrap();
    }
    assert_eq!(buffer_alloc(&mut rt, c, 1), Err(Error::NoMemory));
    rt.disconnect(c);
    assert!(is_empty(rt.metrics()));
    let c = rt.connect().unwrap();
    for _ in 0..MAX_OBJECTS {
        model_open(&mut rt, c, "mock.increment.v1").unwrap();
    }
    assert_eq!(model_open(&mut rt, c, "mock.increment.v1"), Err(Error::Busy));
    rt.disconnect(c);
    assert!(is_empty(rt.metrics()));
    let clients: Vec<u64> = (0..MAX_SESSIONS).map(|_| rt.connect().unwrap()).collect();
    assert!(rt.connect().is_err());
    for c in clients {
        rt.disconnect(c);
    }
    assert!(is_empty(rt.metrics()));
}

#[test]
fn global_memory_limit_counts_tensor_retained_buffers_and_recovers() {
    let mut rt = Runtime::new();
    let mut clients = Vec::new();
    let mut retained = Vec::new();
    for _ in 0..GLOBAL_MEMORY / SESSION_MEMORY {
        let c = rt.connect().unwrap();
        for _ in 0..SESSION_MEMORY / MAX_BUFFER {
            let buffer = buffer_alloc(&mut rt, c, MAX_BUFFER).unwrap();
            let tensor = tensor_create(
                &mut rt,
                c,
                buffer,
                TensorDesc {
                    offset: 0,
                    shape: vec![1],
                },
            )
            .unwrap();
            empty(&mut rt, c, Request::BufferFree(buffer)).unwrap();
            retained.push(tensor);
        }
        assert_eq!(stats(&mut rt, c).unwrap().live_bytes, SESSION_MEMORY as u64);
        clients.push(c);
    }
    let extra = rt.connect().unwrap();
    assert_eq!(buffer_alloc(&mut rt, extra, 1), Err(Error::NoMemory));
    assert_eq!(rt.metrics().live_bytes, GLOBAL_MEMORY);
    empty(&mut rt, clients[0], Request::TensorRelease(retained[0])).unwrap();
    let replacement = buffer_alloc(&mut rt, extra, MAX_BUFFER).unwrap();
    assert_eq!(buffer_alloc(&mut rt, extra, 1), Err(Error::NoMemory));
    empty(&mut rt, extra, Request::BufferFree(replacement)).unwrap();
    rt.disconnect(extra);
    for c in clients {
        rt.disconnect(c);
    }
    assert!(is_empty(rt.metrics()));
}

#[test]
fn cancellation_completion_stress_never_commits_cancelled_output() {
    let mut rt = Runtime::new();
    let clients: Vec<u64> = (0..4).map(|_| rt.connect().unwrap()).collect();
    let works: Vec<Work> = clients.iter().map(|&c| work(&mut rt, c)).collect();
    for iteration in 0..64u32 {
        for (index, &c) in clients.iter().enumerate() {
            let w = &works[index];
            buffer_write(&mut rt, c, w.output, &[73; 4]).unwrap();
            let job = submit(&mut rt, c, w.model, w.a, w.b, iteration % 3).unwrap();
            match (iteration as usize + index) % 3 {
                0 => {
                    empty(&mut rt, c, Request::JobCancel(job)).unwrap();
                    drain(&mut rt);
                }
                1 => {
                    let ticket = rt.begin().unwrap();
                    empty(&mut rt, c, Request::JobCancel(job)).unwrap();
                    complete(&mut rt, ticket);
                }
                _ => {
                    drain(&mut rt);
                    empty(&mut rt, c, Request::JobCancel(job)).unwrap();
                }
            }
            let result = poll(&mut rt, c, job);
            let bytes = buffer_read(&mut rt, c, w.output).unwrap();
            match result {
                Ok(JobStatus::Completed) => assert_eq!(bytes, vec![1, 2, 255, 0]),
                Err(Error::Cancelled) => assert_eq!(bytes, vec![73; 4]),
                other => panic!("unexpected terminal result: {other:?}"),
            }
            let terminal = job_status(&mut rt, c, job).unwrap();
            empty(&mut rt, c, Request::JobCancel(job)).unwrap();
            assert_eq!(job_status(&mut rt, c, job).unwrap(), terminal);
            empty(&mut rt, c, Request::JobRelease(job)).unwrap();
            assert_eq!(stats(&mut rt, c).unwrap().jobs, 0);
        }
    }
    for c in clients {
        rt.disconnect(c);
    }
    assert!(is_empty(rt.metrics()));
}

#[test]
fn backend_panic_fails_job_without_killing_coordinator() {
    let mut rt = Runtime::new();
    let c = rt.connect().unwrap();
    let w = work(&mut rt, c);
    for _ in 0..2 {
        let job = submit(&mut rt, c, w.model, w.a, w.b, 0).unwrap();
        let ticket = rt.begin().unwrap();
        rt.finish(ticket.job, Err(Error::Backend));
        assert_eq!(poll(&mut rt, c, job), Err(Error::Backend));
        empty(&mut rt, c, Request::JobRelease(job)).unwrap();
    }
    assert_eq!(stats(&mut rt, c).unwrap().jobs, 0);
}

#[test]
fn server_shutdown_disconnects_clients_and_cleans_socket() {
    let mut rt = Runtime::new();
    let c = rt.connect().unwrap();
    let w = work(&mut rt, c);
    submit(&mut rt, c, w.model, w.a, w.b, 5000).unwrap();
    rt.shutdown();
    assert!(rt.begin().is_none());
    assert_eq!(stats(&mut rt, c), Err(Error::Disconnected));
    assert_eq!(rt.connect(), Err(Error::Disconnected));
    assert!(is_empty(rt.metrics()));
}

#[test]
fn job_admission_is_bounded_even_for_tiny_buffers() {
    let mut rt = Runtime::new();
    let c = rt.connect().unwrap();
    let mut jobs = Vec::new();
    for _ in 0..MAX_JOBS {
        let w = work(&mut rt, c);
        jobs.push(submit(&mut rt, c, w.model, w.a, w.b, 5000).unwrap());
    }
    let extra = work(&mut rt, c);
    assert_eq!(submit(&mut rt, c, extra.model, extra.a, extra.b, 0), Err(Error::Busy));
    for job in jobs {
        empty(&mut rt, c, Request::JobCancel(job)).unwrap();
    }
    rt.disconnect(c);
    assert!(is_empty(rt.metrics()));
}

#[test]
fn killed_client_reclaims_resources() {
    let mut rt = Runtime::new();
    let c = rt.connect().unwrap();
    let w = work(&mut rt, c);
    submit(&mut rt, c, w.model, w.a, w.b, 5000).unwrap();
    let ticket = rt.begin().unwrap();
    rt.disconnect(c);
    assert_eq!(rt.metrics().sessions, 0);
    assert_eq!(rt.metrics().objects, 0);
    assert!(rt.is_cancelled(ticket.job));
    complete(&mut rt, ticket);
    assert!(is_empty(rt.metrics()));
}

#[test]
fn shared_import_inference_and_export_preserve_ownership() {
    let mut rt = Runtime::new();
    let c = rt.connect().unwrap();
    let body = rt.import(c, 4, Ok(vec![0, 1, 254, 255])).unwrap();
    let input = parse_handle(&body).unwrap();
    let output = buffer_alloc(&mut rt, c, 4).unwrap();
    let model = model_open(&mut rt, c, "mock.increment.v1").unwrap();
    let desc = TensorDesc {
        offset: 0,
        shape: vec![4],
    };
    let a = tensor_create(&mut rt, c, input, desc.clone()).unwrap();
    let b = tensor_create(&mut rt, c, output, desc).unwrap();
    assert_eq!(buffer_write(&mut rt, c, input, &[8; 4]), Err(Error::Permission));
    assert_eq!(submit(&mut rt, c, model, b, a, 0), Err(Error::Permission));
    let job = submit(&mut rt, c, model, a, b, 20).unwrap();
    assert_eq!(rt.export(c, output), Err(Error::Busy));
    empty(&mut rt, c, Request::BufferFree(input)).unwrap();
    empty(&mut rt, c, Request::TensorRelease(a)).unwrap();
    wait(&mut rt, c, job).unwrap();
    assert_eq!(stats(&mut rt, c).unwrap().live_bytes, 4);
    let snapshot = rt.export(c, output).unwrap();
    buffer_write(&mut rt, c, output, &[7; 4]).unwrap();
    rt.disconnect(c);
    assert!(is_empty(rt.metrics()));
    assert_eq!(snapshot, vec![1, 2, 255, 0]);
}

#[test]
fn shared_import_validation_and_disconnect_reclaim_quota() {
    let mut rt = Runtime::new();
    let c = rt.connect().unwrap();
    assert_eq!(rt.import(c, 1, Ok(vec![1; MAX_BUFFER])), Err(Error::Invalid));
    assert_eq!(rt.import(c, 4, Err(Error::Permission)), Err(Error::Permission));
    assert_eq!(rt.import(c, 0, Ok(vec![])), Err(Error::Invalid));
    assert_eq!(stats(&mut rt, c).unwrap().live_bytes, 0);
    for _ in 0..8 {
        rt.import(c, MAX_BUFFER as u32, Ok(vec![1; MAX_BUFFER])).unwrap();
    }
    assert_eq!(
        rt.import(c, MAX_BUFFER as u32, Ok(vec![1; MAX_BUFFER])),
        Err(Error::NoMemory)
    );
    rt.disconnect(c);
    assert!(is_empty(rt.metrics()));
}

#[test]
fn shared_cancellation_does_not_commit_output() {
    let mut rt = Runtime::new();
    let c = rt.connect().unwrap();
    let w = work(&mut rt, c);
    let input = parse_handle(&rt.import(c, 4, Ok(vec![2; 4])).unwrap()).unwrap();
    let a = tensor_create(
        &mut rt,
        c,
        input,
        TensorDesc {
            offset: 0,
            shape: vec![2, 2],
        },
    )
    .unwrap();
    let job = submit(&mut rt, c, w.model, a, w.b, 5000).unwrap();
    let ticket = rt.begin().unwrap();
    assert_eq!(job_status(&mut rt, c, job).unwrap().0, JobStatus::Running);
    empty(&mut rt, c, Request::BufferFree(input)).unwrap();
    empty(&mut rt, c, Request::TensorRelease(a)).unwrap();
    empty(&mut rt, c, Request::JobCancel(job)).unwrap();
    complete(&mut rt, ticket);
    assert_eq!(wait(&mut rt, c, job), Err(Error::Cancelled));
    assert_eq!(rt.export(c, w.output).unwrap(), vec![0; 4]);
    rt.disconnect(c);
    assert!(is_empty(rt.metrics()));
}

#[test]
fn hello_and_stats_describe_the_session() {
    let mut rt = Runtime::new();
    let c = rt.connect().unwrap();
    let hello = call(&mut rt, c, Request::Hello).unwrap();
    assert_eq!(cogposix::client::check_hello(&hello), Ok(()));
    let w = work(&mut rt, c);
    let job = submit(&mut rt, c, w.model, w.a, w.b, 0).unwrap();
    assert_eq!(
        stats(&mut rt, c).unwrap(),
        Stats {
            objects: 6,
            live_bytes: 8,
            jobs: 1
        }
    );
    assert_eq!(wait(&mut rt, c, job), Ok(JobStatus::Completed));
    assert_eq!(job_status(&mut rt, c, job), Ok((JobStatus::Completed, None)));
    assert_eq!(call(&mut rt, 999, Request::Stats), Err(Error::Disconnected));
}

#[test]
fn fifo_order_and_fresh_identifiers() {
    let mut rt = Runtime::new();
    let c = rt.connect().unwrap();
    let first = work(&mut rt, c);
    let second = work(&mut rt, c);
    let j1 = submit(&mut rt, c, first.model, first.a, first.b, 0).unwrap();
    let j2 = submit(&mut rt, c, second.model, second.a, second.b, 0).unwrap();
    assert!(j2 > j1);
    let t = rt.begin().unwrap();
    assert_eq!(t.job, j1);
    assert_eq!(t.input, vec![0, 1, 254, 255]);
    complete(&mut rt, t);
    let t = rt.begin().unwrap();
    assert_eq!(t.job, j2);
    complete(&mut rt, t);
    assert!(rt.begin().is_none());
    let again = buffer_alloc(&mut rt, c, 1).unwrap();
    assert!(again > j2);
}

#[test]
fn wrong_kinds_and_sizes_are_invalid() {
    let mut rt = Runtime::new();
    let c = rt.connect().unwrap();
    let w = work(&mut rt, c);
    assert_eq!(empty(&mut rt, c, Request::BufferFree(w.model)), Err(Error::Invalid));
    assert_eq!(empty(&mut rt, c, Request::ModelClose(w.input)), Err(Error::Invalid));
    assert_eq!(buffer_write(&mut rt, c, w.input, &[1, 2, 3]), Err(Error::Invalid));
    assert_eq!(buffer_alloc(&mut rt, c, 0), Err(Error::Invalid));
    assert_eq!(buffer_alloc(&mut rt, c, MAX_BUFFER + 1), Err(Error::Invalid));
    assert_eq!(call(&mut rt, c, Request::BufferAlloc(0)), Err(Error::Invalid));
    assert_eq!(submit(&mut rt, c, w.model, w.a, w.b, 5001), Err(Error::Invalid));
    assert_eq!(submit(&mut rt, c, w.a, w.a, w.b, 0), Err(Error::Invalid));
    assert_eq!(
        tensor_create(
            &mut rt,
            c,
            w.input,
            TensorDesc {
                offset: 0,
                shape: vec![]
            }
        ),
        Err(Error::Invalid)
    );
    assert_eq!(model_open(&mut rt, c, &"m".repeat(129)), Err(Error::Invalid));
}

#[test]
fn fresh_buffers_read_as_zeros() {
    let mut rt = Runtime::new();
    let c = rt.connect().unwrap();
    let b = buffer_alloc(&mut rt, c, 5).unwrap();
    assert_eq!(buffer_read(&mut rt, c, b).unwrap(), vec![0; 5]);
    buffer_write(&mut rt, c, b, &[1, 2, 3, 4, 5]).unwrap();
    assert_eq!(buffer_read(&mut rt, c, b).unwrap(), vec![1, 2, 3, 4, 5]);
}

#[test]
fn disconnect_releases_everything_of_the_session_only() {
    let mut rt = Runtime::new();
    let a = rt.connect().unwrap();
    let b = rt.connect().unwrap();
    let wa = work(&mut rt, a);
    let wb = work(&mut rt, b);
    submit(&mut rt, a, wa.model, wa.a, wa.b, 0).unwrap();
    submit(&mut rt, b, wb.model, wb.a, wb.b, 0).unwrap();
    rt.disconnect(a);
    assert_eq!(rt.metrics().live_bytes, 8);
    assert_eq!(stats(&mut rt, b).unwrap().live_bytes, 8);
    assert_eq!(stats(&mut rt, a), Err(Error::Disconnected));
    drain(&mut rt);
    assert_eq!(buffer_read(&mut rt, b, wb.output).unwrap(), vec![1, 2, 255, 0]);
}

#[test]
fn job_status_reply_error_code_follows_status() {
    let mut rt = Runtime::new();
    let c = rt.connect().unwrap();
    let w = work(&mut rt, c);
    let job = submit(&mut rt, c, w.model, w.a, w.b, 0).unwrap();
    let raw = call(&mut rt, c, Request::JobStatus(job)).unwrap();
    assert_eq!(raw, [1u32.to_le_bytes(), 0u32.to_le_bytes()].concat());
    let t = rt.begin().unwrap();
    let raw = call(&mut rt, c, Request::JobStatus(job)).unwrap();
    assert_eq!(raw, [2u32.to_le_bytes(), 0u32.to_le_bytes()].concat());
    complete(&mut rt, t);
    let raw = call(&mut rt, c, Request::JobStatus(job)).unwrap();
    assert_eq!(raw, [3u32.to_le_bytes(), 0u32.to_le_bytes()].concat());
    let queued = submit(&mut rt, c, w.model, w.a, w.b, 0).unwrap();
    empty(&mut rt, c, Request::JobCancel(queued)).unwrap();
    let raw = call(&mut rt, c, Request::JobStatus(queued)).unwrap();
    assert_eq!(raw, [5u32.to_le_bytes(), 6u32.to_le_bytes()].concat());
}

#[test]
fn new_sessions_start_empty_with_fresh_identifiers() {
    let mut rt = Runtime::new();
    let a = rt.connect().unwrap();
    assert_eq!(a, 1);
    let w = work(&mut rt, a);
    let b = rt.connect().unwrap();
    assert!(b > w.b && b > a);
    assert_eq!(
        stats(&mut rt, b).unwrap(),
        Stats {
            objects: 0,
            live_bytes: 0,
            jobs: 0
        }
    );
    assert_eq!(rt.metrics().sessions, 2);
}

#[test]
fn shutdown_leaves_no_job_queued_and_flags_the_running_one() {
    let mut rt = Runtime::new();
    let c = rt.connect().unwrap();
    let w = work(&mut rt, c);
    let running = submit(&mut rt, c, w.model, w.a, w.b, 0).unwrap();
    let t = rt.begin().unwrap();
    assert_eq!(t.job, running);
    rt.shutdown();
    assert!(rt.is_cancelled(running));
    assert!(rt.begin().is_none());
    assert_eq!(rt.connect(), Err(Error::Disconnected));
    complete(&mut rt, t);
    assert!(is_empty(rt.metrics()));
}

#[test]
fn pinned_buffers_stay_busy_until_the_job_ends() {
    let mut rt = Runtime::new();
    let c = rt.connect().unwrap();
    let w = work(&mut rt, c);
    let job = submit(&mut rt, c, w.model, w.a, w.b, 0).unwrap();
    assert_eq!(buffer_read(&mut rt, c, w.input), Err(Error::Busy));
    let _ = stats(&mut rt, c).unwrap();
    assert_eq!(buffer_write(&mut rt, c, w.output, &[1, 2, 3, 4]), Err(Error::Busy));
    let t = rt.begin().unwrap();
    assert_eq!(buffer_read(&mut rt, c, w.output), Err(Error::Busy));
    assert_eq!(submit(&mut rt, c, w.model, w.a, w.b, 0), Err(Error::Busy));
    complete(&mut rt, t);
    assert_eq!(poll(&mut rt, c, job), Ok(JobStatus::Completed));
    assert_eq!(buffer_read(&mut rt, c, w.output), Ok(vec![1, 2, 255, 0]));
}

#[test]
fn disconnect_with_a_running_job_releases_everything_once_it_ends() {
    let mut rt = Runtime::new();
    let c = rt.connect().unwrap();
    let w = work(&mut rt, c);
    let running = submit(&mut rt, c, w.model, w.a, w.b, 0).unwrap();
    let queued = submit(&mut rt, c, w.model, w.b, w.a, 0);
    assert_eq!(queued, Err(Error::Busy));
    let t = rt.begin().unwrap();
    rt.disconnect(c);
    assert!(rt.is_cancelled(running));
    assert_eq!(call(&mut rt, c, Request::Stats), Err(Error::Disconnected));
    let m = rt.metrics();
    assert_eq!((m.sessions, m.objects, m.live_bytes), (0, 0, 8));
    complete(&mut rt, t);
    assert!(is_empty(rt.metrics()));
}

#[test]
fn freed_buffer_stays_counted_until_its_last_tensor_goes() {
    let mut rt = Runtime::new();
    let c = rt.connect().unwrap();
    let w = work(&mut rt, c);
    empty(&mut rt, c, Request::BufferFree(w.input)).unwrap();
    assert_eq!(buffer_read(&mut rt, c, w.input), Err(Error::Invalid));
    assert_eq!(rt.metrics().live_bytes, 8);
    assert_eq!(stats(&mut rt, c).unwrap().live_bytes, 8);
    empty(&mut rt, c, Request::TensorRelease(w.a)).unwrap();
    assert_eq!(rt.metrics().live_bytes, 4);
    assert_eq!(stats(&mut rt, c).unwrap().live_bytes, 4);
}
