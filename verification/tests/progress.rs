use spm::progress::{BuildProgress, BuildStage, NoopProgress};
#[test]
fn noop_progress_does_not_panic() {
    let p = NoopProgress;
    p.stage_start(BuildStage::HashingFiles, 100, 1024);
    p.item_completed(512);
    p.stage_finish(BuildStage::HashingFiles);
}

#[test]
fn stage_labels_are_nonempty() {
    let stages = [
        BuildStage::HashingFiles,
        BuildStage::WritingPayload,
        BuildStage::BuildingMetadata,
        BuildStage::ComputingSignature,
        BuildStage::Assembling,
        BuildStage::WritingControl,
    ];
    for stage in &stages {
        assert!(!stage.label().is_empty(), "{:?} has empty label", stage);
    }
}
