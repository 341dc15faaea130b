use vstd::prelude::*;

verus! {

/// The sample sources a receiver can be configured with.
#[derive(Clone, Debug, PartialEq, Eq)]
pub enum InputDriver {
    /// Raw samples piped in on standard input.
    Stdin,
    /// Raw samples read from a named pipe or file.
    Fifo { path: String },
    /// A device opened through SoapySDR.
    SoapySdr,
}

/// What to open for a receiver's input.
#[derive(Clone, Debug, PartialEq, Eq)]
pub enum InputSource {
    Stdin,
    File { path: String },
    SoapySdr,
}

/// Why an input cannot be opened before anything is touched.
#[derive(Clone, Copy, Debug, PartialEq, Eq, Structural)]
pub enum InputPlanError {
    /// The receiver asks for SoapySDR but this build has no SoapySDR support.
    SoapySdrDisabled,
}

impl InputPlanError {
    /// The error's message.
    pub fn message(&self) -> (msg: String)
        ensures
            msg@ == "SoapySDR input support is disabled (rebuild with Cargo feature \"soapysdr\")"@,
    {
        String::from_str("SoapySDR input support is disabled (rebuild with Cargo feature \"soapysdr\")")
    }
}

/// What a receiver's input driver opens: standard input, the configured file,
/// or the SoapySDR device when the build supports it.
pub open spec fn input_plan_spec(driver: InputDriver, soapy_support: bool) -> Result<
    InputSource,
    InputPlanError,
> {
    match driver {
        InputDriver::Stdin => Ok(InputSource::Stdin),
        InputDriver::Fifo { path } => Ok(InputSource::File { path }),
        InputDriver::SoapySdr => if soapy_support {
            Ok(InputSource::SoapySdr)
        } else {
            Err(InputPlanError::SoapySdrDisabled)
        },
    }
}

/// Decides what to open for a receiver's input (see `input_plan_spec`).
pub fn plan_input(driver: &InputDriver, soapy_support: bool) -> (plan: Result<InputSource, InputPlanError>)
    ensures
        plan == input_plan_spec(*driver, soapy_support),
{
    match driver {
        InputDriver::Stdin => Ok(InputSource::Stdin),
        InputDriver::Fifo { path } => Ok(InputSource::File { path: path.clone() }),
        InputDriver::SoapySdr => if soapy_support {
            Ok(InputSource::SoapySdr)
        } else {
            Err(InputPlanError::SoapySdrDisabled)
        },
    }
}

/// Each driver opens its own kind of source: standard input, the configured
/// path (unchanged), or the SoapySDR device, which needs SoapySDR support and
/// is the only driver that can be refused.
pub proof fn law_input_plan_by_driver(driver: InputDriver, soapy_support: bool)
    ensures
        driver is Stdin ==> input_plan_spec(driver, soapy_support) == Ok::<
            InputSource,
            InputPlanError,
        >(InputSource::Stdin),
        driver is Fifo ==> input_plan_spec(driver, soapy_support) == Ok::<
            InputSource,
            InputPlanError,
        >(InputSource::File { path: driver->path }),
        driver is SoapySdr ==> (input_plan_spec(driver, soapy_support) is Ok <==> soapy_support),
        driver is SoapySdr && soapy_support ==> input_plan_spec(driver, soapy_support) == Ok::<
            InputSource,
            InputPlanError,
        >(InputSource::SoapySdr),
        input_plan_spec(driver, soapy_support) is Err ==> driver is SoapySdr && !soapy_support
            && input_plan_spec(driver, soapy_support) == Err::<InputSource, InputPlanError>(
            InputPlanError::SoapySdrDisabled,
        ),
{
}

} // verus!
