//! The vocabulary of recommendations.
use vstd::prelude::*;

verus! {

/// Effort a refactoring takes.
#[derive(Clone, Copy, Debug, PartialEq, Eq, Structural)]
pub enum Effort {
    Low,
    Medium,
    High,
}

/// Impact a refactoring has.
#[derive(Clone, Copy, Debug, PartialEq, Eq, Structural)]
pub enum Impact {
    Low,
    Medium,
    High,
}

/// How much of the analysis data a recommendation could draw on.
#[derive(Clone, Copy, Debug, PartialEq, Eq, Structural)]
pub enum DataQuality {
    Full,
    Structured,
    Minimal,
}

/// The kinds of refactoring the analysis proposes.
#[derive(Clone, Copy, Debug, PartialEq, Eq, Structural)]
pub enum RefactorType {
    ExtractInterface,
    BreakCycle,
    MergeModules,
    SplitFile,
    ReduceCoupling,
}

impl Effort {
    /// The name used in reports.
    pub fn as_str(&self) -> (r: &'static str)
        ensures
            r@ == match self {
                Effort::Low => "low"@,
                Effort::Medium => "medium"@,
                Effort::High => "high"@,
            },
    {
        match self {
            Effort::Low => "low",
            Effort::Medium => "medium",
            Effort::High => "high",
        }
    }
}

impl Impact {
    /// The name used in reports.
    pub fn as_str(&self) -> (r: &'static str)
        ensures
            r@ == match self {
                Impact::Low => "low"@,
                Impact::Medium => "medium"@,
                Impact::High => "high"@,
            },
    {
        match self {
            Impact::Low => "low",
            Impact::Medium => "medium",
            Impact::High => "high",
        }
    }
}

impl DataQuality {
    /// The name used in reports.
    pub fn as_str(&self) -> (r: &'static str)
        ensures
            r@ == match self {
                DataQuality::Full => "full"@,
                DataQuality::Structured => "structural"@,
                DataQuality::Minimal => "minimal"@,
            },
    {
        match self {
            DataQuality::Full => "full",
            DataQuality::Structured => "structural",
            DataQuality::Minimal => "minimal",
        }
    }
}

impl RefactorType {
    /// The name used in reports.
    pub fn as_str(&self) -> (r: &'static str)
        ensures
            r@ == match self {
                RefactorType::ExtractInterface => "extract_interface"@,
                RefactorType::BreakCycle => "break_cycle"@,
                RefactorType::MergeModules => "merge_modules"@,
                RefactorType::SplitFile => "split_file"@,
                RefactorType::ReduceCoupling => "reduce_coupling"@,
            },
    {
        match self {
            RefactorType::ExtractInterface => "extract_interface",
            RefactorType::BreakCycle => "break_cycle",
            RefactorType::MergeModules => "merge_modules",
            RefactorType::SplitFile => "split_file",
            RefactorType::ReduceCoupling => "reduce_coupling",
        }
    }
}

/// A group of symbols proposed to move to a file of their own.
#[derive(Clone, Debug)]
pub struct SplitGroup {
    pub name: String,
    /// The symbols of the group, in increasing order, each once.
    pub symbols: Vec<String>,
    pub estimated_lines: u32,
    pub rationale: String,
}

/// Where a new file should go.
#[derive(Clone, Debug)]
pub struct PlacementSuggestion {
    pub suggested_path: String,
    pub cluster: String,
    pub layer: String,
    pub arch_depth: u32,
    pub reasoning: Vec<String>,
    pub alternatives: Vec<PlacementAlternative>,
    pub data_quality: DataQuality,
}

/// A less favoured place for a new file.
#[derive(Clone, Debug)]
pub struct PlacementAlternative {
    pub path: String,
    pub cluster: String,
    pub risk: String,
}

} // verus!
