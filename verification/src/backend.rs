//! The internal backend contract and the deterministic mock backend.
use crate::types::{DescView, Error, TensorDesc, MAX_DELAY_MS};
use vstd::prelude::*;

verus! {

/// What a backend admits: the models it serves and the tensors and delays a
/// job may ask for. Running a job is the backend's own business and happens
/// outside the runtime's state.
pub trait Backend {
    /// Whether `artifact` names a model this backend runs.
    spec fn spec_supports(&self, artifact: Seq<char>) -> bool;

    /// Whether a job with these tensors and delay may be submitted.
    spec fn spec_validate(&self, input: DescView, output: DescView, delay_ms: u32) -> Result<
        (),
        Error,
    >;

    fn supports(&self, artifact: &str) -> (r: bool)
        ensures
            r == self.spec_supports(artifact@),
    ;

    fn validate(&self, input: &TensorDesc, output: &TensorDesc, delay_ms: u32) -> (r: Result<
        (),
        Error,
    >)
        ensures
            r == self.spec_validate(input@, output@, delay_ms),
    ;
}

/// The default admission rule: input and output have the same shape.
pub open spec fn same_shape_rule(input: DescView, output: DescView) -> Result<(), Error> {
    if input.shape == output.shape {
        Ok(())
    } else {
        Err(Error::Invalid)
    }
}

/// Checks the default admission rule.
pub fn same_shape(input: &TensorDesc, output: &TensorDesc) -> (r: Result<(), Error>)
    ensures
        r == same_shape_rule(input@, output@),
{
    let n = input.shape.len();
    if n != output.shape.len() {
        return Err(Error::Invalid);
    }
    let mut i: usize = 0;
    while i < n
        invariant
            n == input.shape@.len(),
            n == output.shape@.len(),
            0 <= i <= n,
            forall|k: int| 0 <= k < i ==> input.shape@[k] == output.shape@[k],
        decreases n - i,
    {
        if input.shape[i] != output.shape[i] {
            return Err(Error::Invalid);
        }
        i = i + 1;
    }
    assert(input.shape@ =~= output.shape@);
    Ok(())
}

/// Whether two strings hold the same characters.
pub fn same_text(a: &str, b: &str) -> (r: bool)
    ensures
        r == (a@ == b@),
{
    let n = a.unicode_len();
    if n != b.unicode_len() {
        return false;
    }
    let mut i: usize = 0;
    while i < n
        invariant
            n == a@.len(),
            n == b@.len(),
            0 <= i <= n,
            forall|k: int| 0 <= k < i ==> a@[k] == b@[k],
        decreases n - i,
    {
        if a.get_char(i) != b.get_char(i) {
            return false;
        }
        i = i + 1;
    }
    assert(a@ =~= b@);
    true
}

/// The only model of the mock backend.
pub const MODEL: &'static str = "mock.increment.v1";

/// Every input byte plus one, modulo 256.
pub open spec fn increment(input: Seq<u8>) -> Seq<u8> {
    Seq::new(input.len(), |i: int| ((input[i] + 1) % 256) as u8)
}

/// The characters of the mock model's name.
pub open spec fn mock_model_name() -> Seq<char> {
    seq!['m', 'o', 'c', 'k', '.', 'i', 'n', 'c', 'r', 'e', 'm', 'e', 'n', 't', '.', 'v', '1']
}

/// A deterministic backend that increments every byte.
pub struct MockBackend;

impl MockBackend {
    /// The mock backend's outcome for `input`: a delay over the limit is
    /// invalid, observed cancellation wins, otherwise every byte is incremented.
    pub open spec fn outcome(input: Seq<u8>, delay_ms: u32, cancelled: bool) -> Result<
        Seq<u8>,
        Error,
    > {
        if delay_ms > MAX_DELAY_MS {
            Err(Error::Invalid)
        } else if cancelled {
            Err(Error::Cancelled)
        } else {
            Ok(increment(input))
        }
    }

    /// Runs the mock model on `input`. `cancelled` is whether cancellation
    /// was observed while the requested delay elapsed.
    pub fn execute(&self, input: &[u8], delay_ms: u32, cancelled: bool) -> (r: Result<Vec<u8>, Error>)
        ensures
            match r {
                Ok(out) => MockBackend::outcome(input@, delay_ms, cancelled) == Ok::<
                    Seq<u8>,
                    Error,
                >(out@),
                Err(e) => MockBackend::outcome(input@, delay_ms, cancelled) == Err::<
                    Seq<u8>,
                    Error,
                >(e),
            },
    {
        if delay_ms > MAX_DELAY_MS {
            return Err(Error::Invalid);
        }
        if cancelled {
            return Err(Error::Cancelled);
        }
        let mut out: Vec<u8> = Vec::with_capacity(input.len());
        let mut i: usize = 0;
        while i < input.len()
            invariant
                0 <= i <= input@.len(),
                out@ == increment(input@.subrange(0, i as int)),
            decreases input@.len() - i,
        {
            out.push(input[i].wrapping_add(1));
            assert(out@ =~= increment(input@.subrange(0, i + 1)));
            i = i + 1;
        }
        assert(input@.subrange(0, i as int) =~= input@);
        Ok(out)
    }
}

impl Backend for MockBackend {
    open spec fn spec_supports(&self, artifact: Seq<char>) -> bool {
        artifact == mock_model_name()
    }

    open spec fn spec_validate(&self, input: DescView, output: DescView, delay_ms: u32) -> Result<
        (),
        Error,
    > {
        same_shape_rule(input, output)
    }

    fn supports(&self, artifact: &str) -> (r: bool) {
        proof {
            reveal_strlit("mock.increment.v1");
            assert(MODEL@ =~= mock_model_name());
        }
        same_text(artifact, MODEL)
    }

    fn validate(&self, input: &TensorDesc, output: &TensorDesc, delay_ms: u32) -> (r: Result<
        (),
        Error,
    >) {
        same_shape(input, output)
    }
}

/// The backend a daemon serves with: the mock or the MNIST worker.
pub enum ModelBackend {
    Mock(MockBackend),
    Mnist(crate::process::MnistBackend),
}

impl Backend for ModelBackend {
    open spec fn spec_supports(&self, artifact: Seq<char>) -> bool {
        match self {
            ModelBackend::Mock(m) => m.spec_supports(artifact),
            ModelBackend::Mnist(m) => m.spec_supports(artifact),
        }
    }

    open spec fn spec_validate(&self, input: DescView, output: DescView, delay_ms: u32) -> Result<
        (),
        Error,
    > {
        match self {
            ModelBackend::Mock(m) => m.spec_validate(input, output, delay_ms),
            ModelBackend::Mnist(m) => m.spec_validate(input, output, delay_ms),
        }
    }

    fn supports(&self, artifact: &str) -> (r: bool) {
        match self {
            ModelBackend::Mock(m) => m.supports(artifact),
            ModelBackend::Mnist(m) => m.supports(artifact),
        }
    }

    fn validate(&self, input: &TensorDesc, output: &TensorDesc, delay_ms: u32) -> (r: Result<
        (),
        Error,
    >) {
        match self {
            ModelBackend::Mock(m) => m.validate(input, output, delay_ms),
            ModelBackend::Mnist(m) => m.validate(input, output, delay_ms),
        }
    }
}

} // verus!
