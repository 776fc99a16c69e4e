//! Progress reporting for package build pipelines.
//!
//! Build code calls methods on [`BuildProgress`] during data-intensive
//! stages. The command-line application provides a progress-bar
//! implementation; tests and library consumers can use [`NoopProgress`].
use vstd::prelude::*;

verus! {

/// Identifies a discrete build stage.
#[derive(Debug, Clone, Copy, PartialEq, Eq, Structural)]
pub enum BuildStage {
    /// Hashing source files to compute digests (RPM only).
    HashingFiles,
    /// Writing file data into the payload archive (CPIO for RPM, tar for DEB).
    WritingPayload,
    /// Building metadata headers.
    BuildingMetadata,
    /// Computing signature hashes over the assembled header + payload (RPM only).
    ComputingSignature,
    /// Assembling the final package file on disk.
    Assembling,
    /// Writing the control tar (DEB only).
    WritingControl,
}

/// The display label of a build stage.
pub open spec fn stage_label(s: BuildStage) -> Seq<char> {
    match s {
        BuildStage::HashingFiles => "Hashing files"@,
        BuildStage::WritingPayload => "Compressing payload"@,
        BuildStage::BuildingMetadata => "Building metadata"@,
        BuildStage::ComputingSignature => "Computing signature"@,
        BuildStage::Assembling => "Assembling package"@,
        BuildStage::WritingControl => "Writing control"@,
    }
}

impl BuildStage {
    /// Human-readable label for display.
    pub fn label(&self) -> (r: &'static str)
        ensures
            r@ == stage_label(*self),
    {
        match self {
            BuildStage::HashingFiles => "Hashing files",
            BuildStage::WritingPayload => "Compressing payload",
            BuildStage::BuildingMetadata => "Building metadata",
            BuildStage::ComputingSignature => "Computing signature",
            BuildStage::Assembling => "Assembling package",
            BuildStage::WritingControl => "Writing control",
        }
    }
}

/// Trait for receiving build progress updates.
///
/// Uses `&self` so implementations can use interior mutability.
pub trait BuildProgress {
    /// A new build stage is starting.
    ///
    /// `total_items` is the number of files to process (0 if not applicable).
    /// `total_bytes` is the total uncompressed byte count (0 if not applicable).
    fn stage_start(&self, stage: BuildStage, total_items: u64, total_bytes: u64);

    /// One item (file) has been processed in the current stage.
    ///
    /// `bytes` is the size of this specific item.
    fn item_completed(&self, bytes: u64);

    /// The current stage has finished.
    fn stage_finish(&self, stage: BuildStage);

    /// A split part has been finalized during streaming split.
    ///
    /// `part` is the 1-based part number. `compressed_size` is the
    /// compressed data.tar size for this part.
    fn part_completed(&self, part: u32, compressed_size: u64) {
    }
}

/// A no-op implementation that discards all progress updates.
pub struct NoopProgress;

impl BuildProgress for NoopProgress {
    fn stage_start(&self, stage: BuildStage, total_items: u64, total_bytes: u64) {
    }

    fn item_completed(&self, bytes: u64) {
    }

    fn stage_finish(&self, stage: BuildStage) {
    }
}

} // verus!
