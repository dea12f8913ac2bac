//! Records of a project's workflow state (`project.yaml`) that hold no fractional numbers.

use vstd::prelude::*;

verus! {

/// A shot the agent suggested recording.
pub struct Shot {
    pub id: u32,
    pub label: String,
    pub description: String,
    pub status: String,
}

/// Which narration segments go with a recorded clip.
pub struct Mapping {
    pub clip_id: u32,
    pub narration_ids: Vec<u32>,
    pub status: String,
}

/// A clip rendered with its narration.
pub struct Render {
    pub clip_id: u32,
    pub audio_file: String,
    pub render_file: String,
    pub status: String,
}

/// The assembled video.
pub struct FinalOutput {
    pub file: String,
    pub status: String,
}

} // verus!
