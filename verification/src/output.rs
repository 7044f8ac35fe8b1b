//! Where a customised image goes.

use crate::error::{LiveError, Refusal};
use crate::initrd::Initrd;
use crate::iso_config;
use crate::iso_config::{ConfigView, IsoConfig};
use crate::region;
use crate::region::{Segment, SegmentView, WriteOp, WriteView};
use crate::text;
use vstd::prelude::*;
use vstd::string::*;

verus! {

/// Whether an image is opened for writing: if it is modified in place. `None` is
/// for a command without output, and `Some(None)` for one that modifies its
/// input.
pub fn open_for_writing(output_path: Option<Option<&String>>) -> (r: bool)
    ensures
        r == (output_path matches Some(None)),
{
    match output_path {
        Some(None) => true,
        _ => false,
    }
}

/// Where an image is written to.
#[derive(Clone, Copy, Debug, PartialEq, Eq, Structural)]
pub enum Destination {
    /// Its own place.
    InPlace,
    /// Standard output.
    Stdout,
    /// Another file.
    File,
}

/// The destination that an output path names.
pub open spec fn destination_of(output_path: Option<&String>) -> Destination {
    match output_path {
        None => Destination::InPlace,
        Some(path) => if path@ == "-"@ {
            Destination::Stdout
        } else {
            Destination::File
        },
    }
}

/// The destination that an output path names.
pub fn destination(output_path: Option<&String>) -> (r: Destination)
    ensures
        r == destination_of(output_path),
{
    match output_path {
        None => Destination::InPlace,
        Some(path) => if text::same_text(path.as_str(), "-") {
            Destination::Stdout
        } else {
            Destination::File
        },
    }
}

/// What makes a customised image of the input image.
#[derive(Debug)]
pub enum IsoOutput {
    /// Writes to the input, or to a copy of it.
    Patch { ops: Vec<WriteOp> },
    /// A stream of pieces.
    Stream { plan: Vec<Segment> },
}

/// An output with its parts as views.
pub enum OutputView {
    Patch { ops: Seq<WriteView> },
    Stream { plan: Seq<SegmentView> },
}

impl View for IsoOutput {
    type V = OutputView;

    open spec fn view(&self) -> OutputView {
        match *self {
            IsoOutput::Patch { ops } => OutputView::Patch { ops: region::writes(ops@) },
            IsoOutput::Stream { plan } => OutputView::Stream { plan: region::segments(plan@) },
        }
    }
}

/// The image that an output makes of the input image, or `None` where the input
/// is too short for it.
pub open spec fn output_image(input: Seq<u8>, output: OutputView) -> Option<Seq<u8>> {
    match output {
        OutputView::Patch { ops } => Some(region::overwrite_all(input, ops)),
        OutputView::Stream { plan } => region::render(input, plan),
    }
}

/// How a customised image is output: streamed to standard output, and by writes
/// otherwise.
pub open spec fn image_output<E: Fn(&Initrd) -> Result<Vec<u8>, String>>(
    config: ConfigView,
    destination: Destination,
    encode: E,
    r: Result<OutputView, Refusal>,
) -> bool {
    match destination {
        Destination::Stdout => exists|plan: Result<Seq<SegmentView>, Refusal>| #[trigger]
            iso_config::config_streamed(config, encode, plan) && r == match plan {
                Ok(plan) => Ok(OutputView::Stream { plan }),
                Err(e) => Err(e),
            },
        _ => exists|ops: Result<Seq<WriteView>, Refusal>| #[trigger]
            iso_config::config_written(config, encode, ops) && r == match ops {
                Ok(ops) => Ok(OutputView::Patch { ops }),
                Err(e) => Err(e),
            },
    }
}

/// What makes the customised image of the input image.
pub fn write_live_iso<E: Fn(&Initrd) -> Result<Vec<u8>, String>>(
    iso: &IsoConfig,
    output_path: Option<&String>,
    encode: &E,
) -> (r: Result<IsoOutput, LiveError>)
    requires
        iso@.wf(),
        forall|initrd: &Initrd| call_requires(*encode, (initrd,)),
    ensures
        image_output(
            iso@,
            destination_of(output_path),
            *encode,
            crate::error::outcome(r),
        ),
{
    match destination(output_path) {
        Destination::Stdout => {
            let plan = iso.stream(encode);
            assert(iso_config::config_streamed(iso@, *encode, iso_config::copy_outcome(plan)));
            match plan {
                Ok(plan) => Ok(IsoOutput::Stream { plan }),
                Err(e) => Err(e),
            }
        },
        _ => {
            let ops = iso.write(encode);
            assert(iso_config::config_written(iso@, *encode, iso_config::writes_outcome(ops)));
            match ops {
                Ok(ops) => Ok(IsoOutput::Patch { ops }),
                Err(e) => Err(e),
            }
        },
    }
}

} // verus!
