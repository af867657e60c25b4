//! What is known of a detection model apart from its graph.

use crate::geometry::SCORE_ONE;
use vstd::prelude::*;

verus! {

/// What a model is for.
#[derive(Clone, Copy, Debug, PartialEq, Eq, Structural)]
pub enum Task {
    Detect,
    Classify,
    Segment,
}

/// The description of a model. The version and the two thresholds are
/// fixed-point numbers, `SCORE_ONE` standing for 1.0; the position of a
/// label in `classes` is its class index.
#[derive(Clone, Debug, PartialEq, Eq)]
pub struct AI {
    pub name: String,
    pub description: String,
    pub version: u32,
    pub classes: Vec<String>,
    pub input_width: u32,
    pub input_height: u32,
    pub confidence_threshold: u32,
    pub nms_threshold: u32,
    pub num_classes: u32,
    pub num_masks: u32,
    pub task: Task,
}

/// A model description as a mathematical value.
pub struct AIView {
    pub name: Seq<char>,
    pub description: Seq<char>,
    pub version: u32,
    pub classes: Seq<Seq<char>>,
    pub input_width: u32,
    pub input_height: u32,
    pub confidence_threshold: u32,
    pub nms_threshold: u32,
    pub num_classes: u32,
    pub num_masks: u32,
    pub task: Task,
}

/// The texts that a list of strings holds.
pub open spec fn texts_of(strings: Seq<String>) -> Seq<Seq<char>> {
    Seq::new(strings.len(), |i: int| strings[i]@)
}

impl View for AI {
    type V = AIView;

    open spec fn view(&self) -> AIView {
        AIView {
            name: self.name@,
            description: self.description@,
            version: self.version,
            classes: texts_of(self.classes@),
            input_width: self.input_width,
            input_height: self.input_height,
            confidence_threshold: self.confidence_threshold,
            nms_threshold: self.nms_threshold,
            num_classes: self.num_classes,
            num_masks: self.num_masks,
            task: self.task,
        }
    }
}

impl AIView {
    /// The description is consistent: there are as many labels as classes
    /// declared, the input has an extent, and both thresholds lie between
    /// 0.0 and 1.0.
    pub open spec fn sane(self) -> bool {
        &&& self.classes.len() == self.num_classes
        &&& self.input_width > 0
        &&& self.input_height > 0
        &&& self.confidence_threshold <= SCORE_ONE
        &&& self.nms_threshold <= SCORE_ONE
    }
}

impl AI {
    /// Whether the description is consistent.
    pub fn is_sane(&self) -> (sane: bool)
        ensures
            sane == self@.sane(),
    {
        self.classes.len() as u64 == self.num_classes as u64 && self.input_width > 0
            && self.input_height > 0 && self.confidence_threshold <= SCORE_ONE
            && self.nms_threshold <= SCORE_ONE
    }
}

} // verus!
