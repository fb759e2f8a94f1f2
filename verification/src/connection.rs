//! The daemon's side of one connection: which request frames are served,
//! which close the connection, and the response frame for each result.
use crate::backend::Backend;
use crate::frame::{Frame, FrameView, RESPONSE};
use crate::request::{spec_decode, Request, RequestView};
use crate::runtime::{result_view, Runtime};
use crate::model::{spec_disconnect, spec_request};
use crate::types::Error;
use vstd::prelude::*;

verus! {

/// What a request frame asks of the session. `None` closes the connection:
/// a frame with flags or a status set, an id that does not increase, a
/// descriptor riding along (no request of this protocol takes one), anything
/// but `HELLO` first, or `HELLO` again. Otherwise the decoded request, or the
/// error that decoding gave, is served.
pub open spec fn admission(last_id: u64, greeted: bool, f: FrameView, has_file: bool) -> Option<
    Result<RequestView, Error>,
> {
    let r = spec_decode(f.opcode, f.body);
    if f.flags != 0 || f.status != 0 || f.id <= last_id {
        None
    } else if has_file {
        None
    } else if !greeted && !(r matches Ok(RequestView::Hello)) {
        None
    } else if greeted && (r matches Ok(RequestView::Hello)) {
        None
    } else {
        Some(r)
    }
}

/// The response to request frame `f` for `result`: same id and opcode, the
/// response flag, status 0 and the payload, or the error's number and no
/// payload.
pub open spec fn response(f: FrameView, result: Result<Seq<u8>, Error>) -> FrameView {
    match result {
        Ok(body) => FrameView { id: f.id, opcode: f.opcode, flags: RESPONSE, status: 0, body },
        Err(e) => FrameView {
            id: f.id,
            opcode: f.opcode,
            flags: RESPONSE,
            status: e.to_code(),
            body: Seq::empty(),
        },
    }
}

/// Per-connection protocol state: the last request id seen and whether the
/// `HELLO` exchange has completed.
pub struct Connection {
    last_id: u64,
    greeted: bool,
}

impl Connection {
    pub closed spec fn last_id(&self) -> u64 {
        self.last_id
    }

    pub closed spec fn greeted(&self) -> bool {
        self.greeted
    }

    /// A fresh connection: no id seen, not greeted.
    pub fn new() -> (c: Self)
        ensures
            c.last_id() == 0,
            !c.greeted(),
    {
        Connection { last_id: 0, greeted: false }
    }

    /// Decides whether request frame `f` is served. The id is recorded once
    /// the frame's header fields pass.
    pub fn accept(&mut self, f: &Frame, has_file: bool) -> (r: Option<Result<Request, Error>>)
        ensures
            final(self).greeted() == old(self).greeted(),
            final(self).last_id() == (if f.flags == 0 && f.status == 0 && f.id > old(
                self,
            ).last_id() {
                f.id
            } else {
                old(self).last_id()
            }),
            match r {
                None => admission(old(self).last_id(), old(self).greeted(), f@, has_file) is None,
                Some(Ok(q)) => admission(old(self).last_id(), old(self).greeted(), f@, has_file)
                    == Some(Ok::<RequestView, Error>(q@)),
                Some(Err(e)) => admission(old(self).last_id(), old(self).greeted(), f@, has_file)
                    == Some(Err::<RequestView, Error>(e)),
            },
    {
        if f.flags != 0 || f.status != 0 || f.id <= self.last_id {
            return None;
        }
        self.last_id = f.id;
        let request = Request::decode(f.opcode, f.body.as_slice());
        if has_file {
            return None;
        }
        let hello = match &request {
            Ok(Request::Hello) => true,
            _ => false,
        };
        if !self.greeted && !hello {
            return None;
        }
        if self.greeted && hello {
            return None;
        }
        Some(request)
    }

    /// The response frame to request frame `f` for `result`.
    pub fn respond(f: &Frame, result: Result<Vec<u8>, Error>) -> (r: Frame)
        ensures
            r@ == response(f@, result_view(result)),
    {
        match result {
            Ok(body) => Frame { id: f.id, opcode: f.opcode, flags: RESPONSE, status: 0, body },
            Err(e) => Frame {
                id: f.id,
                opcode: f.opcode,
                flags: RESPONSE,
                status: e.code(),
                body: Vec::new(),
            },
        }
    }

    /// Records that a response went out: the session is greeted from now on.
    pub fn sent(&mut self)
        ensures
            final(self).greeted(),
            final(self).last_id() == old(self).last_id(),
    {
        self.greeted = true;
    }

    /// Serves request frame `f` of session `owner`: `None` closes the
    /// connection and leaves the runtime as it was; otherwise the admitted
    /// request runs against the runtime (a request that did not decode is
    /// answered with its error) and the response frame is returned.
    pub fn serve<B: Backend>(
        &mut self,
        runtime: &mut Runtime,
        owner: u64,
        f: &Frame,
        has_file: bool,
        backend: &B,
    ) -> (r: Option<Frame>)
        requires
            old(runtime).wf(),
        ensures
            final(runtime).wf(),
            final(self).greeted() == old(self).greeted(),
            admission(old(self).last_id(), old(self).greeted(), f@, has_file) is Some
                ==> final(self).last_id() == f.id,
            match admission(old(self).last_id(), old(self).greeted(), f@, has_file) {
                None => r is None && final(runtime)@ == old(runtime)@,
                Some(Err(e)) => final(runtime)@ == old(runtime)@ && (r matches Some(resp) && resp@
                    == response(f@, Err(e))),
                Some(Ok(q)) => r matches Some(resp) && (final(runtime)@, resp@) == ({
                    let (w, res) = spec_request(old(runtime)@, owner, q, *backend);
                    (w, response(f@, res))
                }),
            },
    {
        match self.accept(f, has_file) {
            None => None,
            Some(Err(e)) => Some(Connection::respond(f, Err(e))),
            Some(Ok(q)) => {
                let result = runtime.request(owner, q, backend);
                Some(Connection::respond(f, result))
            },
        }
    }

    /// One turn of the connection loop. `incoming` is the next request frame,
    /// or `None` when the stream ended, could not be framed, or a reply could
    /// not be sent. A served frame yields its response; anything else ends the
    /// connection, and then session `owner` is disconnected.
    pub fn step<B: Backend>(
        &mut self,
        runtime: &mut Runtime,
        owner: u64,
        incoming: Option<Frame>,
        has_file: bool,
        backend: &B,
    ) -> (r: Option<Frame>)
        requires
            old(runtime).wf(),
        ensures
            final(runtime).wf(),
            final(self).greeted() == old(self).greeted(),
            match incoming {
                None => r is None && final(runtime)@ == spec_disconnect(old(runtime)@, owner),
                Some(f) => match admission(old(self).last_id(), old(self).greeted(), f@, has_file) {
                    None => r is None && final(runtime)@ == spec_disconnect(old(runtime)@, owner),
                    Some(Err(e)) => final(runtime)@ == old(runtime)@ && final(self).last_id()
                        == f.id && (r matches Some(resp) && resp@ == response(f@, Err(e))),
                    Some(Ok(q)) => final(self).last_id() == f.id && (r matches Some(resp) && (
                    final(runtime)@, resp@) == ({
                        let (w, res) = spec_request(old(runtime)@, owner, q, *backend);
                        (w, response(f@, res))
                    })),
                },
            },
    {
        match incoming {
            None => {
                runtime.disconnect(owner);
                None
            },
            Some(f) => {
                let reply = self.serve(runtime, owner, &f, has_file, backend);
                if reply.is_none() {
                    runtime.disconnect(owner);
                }
                reply
            },
        }
    }
}

} // verus!
