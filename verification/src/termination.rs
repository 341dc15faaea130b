use vstd::prelude::*;

verus! {

/// The kinds of `std::io::Error` that the DSP runner tells apart.
#[derive(Clone, Copy, Debug, PartialEq, Eq, Structural)]
pub enum IoErrorKind {
    UnexpectedEof,
    BrokenPipe,
    ConnectionReset,
    Interrupted,
    /// Any other kind of I/O error.
    Other,
}

#[verifier::external_type_specification]
#[verifier::external_body]
pub struct ExAnyhowError(anyhow::Error);

/// For each error in the chain of `err` (outermost first, as `anyhow::Error::chain`
/// yields them): `Some` of its kind when it is a `std::io::Error`, `None` otherwise.
pub uninterp spec fn io_kinds_in_chain(err: anyhow::Error) -> Seq<Option<IoErrorKind>>;

/// Walks `anyhow::Error::chain`, downcasting each cause to `std::io::Error` and
/// reading its `kind()`. The contract claims only that the result is the value
/// named by `io_kinds_in_chain` for this error.
#[verifier::external_body]
fn chain_io_kinds(err: &anyhow::Error) -> (kinds: Vec<Option<IoErrorKind>>)
    ensures
        kinds@ == io_kinds_in_chain(*err),
{
    err.chain().map(|cause| {
        cause.downcast_ref::<std::io::Error>().map(|e| match e.kind() {
            std::io::ErrorKind::UnexpectedEof => IoErrorKind::UnexpectedEof,
            std::io::ErrorKind::BrokenPipe => IoErrorKind::BrokenPipe,
            std::io::ErrorKind::ConnectionReset => IoErrorKind::ConnectionReset,
            std::io::ErrorKind::Interrupted => IoErrorKind::Interrupted,
            _ => IoErrorKind::Other,
        })
    }).collect()
}

/// The I/O error kinds that mean the input simply ended or was cut off.
pub open spec fn is_termination_kind(kind: IoErrorKind) -> bool {
    match kind {
        IoErrorKind::UnexpectedEof | IoErrorKind::BrokenPipe | IoErrorKind::ConnectionReset
        | IoErrorKind::Interrupted => true,
        IoErrorKind::Other => false,
    }
}

/// Whether the first I/O error in `chain` (if any) is a termination kind.
pub open spec fn first_io_error_is_termination(chain: Seq<Option<IoErrorKind>>) -> bool
    decreases chain.len(),
{
    if chain.len() == 0 {
        false
    } else {
        match chain[0] {
            Some(kind) => is_termination_kind(kind),
            None => first_io_error_is_termination(chain.drop_first()),
        }
    }
}

/// Decides from the I/O kinds of an error chain whether the error is the
/// expected end of an input stream: the first cause that is an I/O error decides.
pub fn chain_is_expected_input_termination(chain: &[Option<IoErrorKind>]) -> (expected: bool)
    ensures
        expected == first_io_error_is_termination(chain@),
{
    let mut i: usize = 0;
    assert(chain@.skip(0) =~= chain@);
    while i < chain.len()
        invariant
            0 <= i <= chain.len(),
            first_io_error_is_termination(chain@) == first_io_error_is_termination(
                chain@.skip(i as int),
            ),
        decreases chain.len() - i,
    {
        assert(chain@.skip(i as int).drop_first() =~= chain@.skip(i + 1));
        match chain[i] {
            Some(kind) => {
                return match kind {
                    IoErrorKind::UnexpectedEof | IoErrorKind::BrokenPipe
                    | IoErrorKind::ConnectionReset | IoErrorKind::Interrupted => true,
                    IoErrorKind::Other => false,
                };
            },
            None => {},
        }
        i = i + 1;
    }
    false
}

/// Whether a DSP loop error is the expected end of its input (end of file, a
/// broken pipe, a reset connection or an interrupted read) rather than a fault.
pub fn is_expected_input_termination(err: &anyhow::Error) -> (expected: bool)
    ensures
        expected == first_io_error_is_termination(io_kinds_in_chain(*err)),
{
    let kinds = chain_io_kinds(err);
    chain_is_expected_input_termination(kinds.as_slice())
}

/// The first I/O error of a chain decides, whatever stands before or after
/// it: if entry `j` is the first `Some`, the error is an expected termination
/// exactly when that kind is an unexpected end of file, a broken pipe, a reset
/// connection or an interrupted read; a chain with no I/O error is not.
pub proof fn law_first_io_error_decides(chain: Seq<Option<IoErrorKind>>, j: int)
    requires
        0 <= j < chain.len(),
        chain[j] is Some,
        forall|i: int| 0 <= i < j ==> #[trigger] chain[i] is None,
    ensures
        first_io_error_is_termination(chain) <==> (chain[j]->0 == IoErrorKind::UnexpectedEof
            || chain[j]->0 == IoErrorKind::BrokenPipe || chain[j]->0
            == IoErrorKind::ConnectionReset || chain[j]->0 == IoErrorKind::Interrupted),
    decreases j,
{
    if j > 0 {
        assert forall|i: int| 0 <= i < j - 1 implies #[trigger] chain.drop_first()[i] is None by {
            assert(chain[i + 1] is None);
        }
        law_first_io_error_decides(chain.drop_first(), j - 1);
    }
}

/// A chain without any I/O error is never an expected termination.
pub proof fn law_no_io_error_not_termination(chain: Seq<Option<IoErrorKind>>)
    requires
        forall|i: int| 0 <= i < chain.len() ==> #[trigger] chain[i] is None,
    ensures
        !first_io_error_is_termination(chain),
    decreases chain.len(),
{
    if chain.len() > 0 {
        assert forall|i: int| 0 <= i < chain.len() - 1 implies #[trigger] chain.drop_first()[i] is None by {
            assert(chain[i + 1] is None);
        }
        law_no_io_error_not_termination(chain.drop_first());
    }
}

} // verus!
