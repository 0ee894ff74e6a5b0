//! Warnings gathered while the analysis runs.
use vstd::prelude::*;

use crate::model::CanonicalPath;

verus! {

/// Kinds of recoverable problems.
#[derive(Clone, Copy, Debug, PartialEq, Eq, Structural)]
pub enum WarningCode {
    W001ParseFailed,
    W002ReadFailed,
    W003FileTooLarge,
    W004BinaryFile,
    W005MaxFilesReached,
    W007PartialParse,
    W009EncodingError,
    W010GraphVersionMismatch,
    W011GraphCorrupted,
    W012AlgorithmFailed,
    W030ConfigParseError,
    W031CircularExtends,
    W032InvalidPathPattern,
    W033ExtendsNotFound,
    W034CsprojParseError,
    W035SlnParseError,
    W037MultipleSlnFiles,
    W038GradleParseError,
    W039MavenParseError,
    W040MavenModuleNotFound,
    W041GradleSubprojectNotFound,
    W045DynamicAliasSkipped,
    W047TurboConfigParseError,
}

/// One recoverable problem.
#[derive(Debug)]
pub struct Warning {
    pub code: WarningCode,
    pub path: CanonicalPath,
    pub message: String,
    pub detail: Option<String>,
}

/// Everything gathered so far.
#[derive(Debug)]
pub struct DiagnosticReport {
    pub warnings: Vec<Warning>,
    pub unresolved_imports: usize,
}

/// A problem that stops the analysis.
#[derive(Debug)]
pub enum FatalError {
    /// The project root does not exist.
    ProjectNotFound { path: String },
    /// The project root is not a directory.
    NotADirectory { path: String },
    /// No file could be read and parsed.
    NoParseableFiles { path: String },
    /// No earlier graph was found in the output directory.
    GraphNotFound { path: String },
    /// The earlier graph could not be read.
    GraphCorrupted { path: String, reason: String },
}

/// Collects warnings and counts unresolved imports.
#[derive(Debug)]
pub struct DiagnosticCollector {
    warnings: Vec<Warning>,
    unresolved: usize,
}

/// A warning as plain values: code, path, message and detail.
pub open spec fn warning_view(w: Warning) -> (WarningCode, Seq<char>, Seq<char>, Option<Seq<char>>) {
    (w.code, w.path@, w.message@, match w.detail {
        Some(d) => Some(d@),
        None => None,
    })
}

impl DiagnosticCollector {
    /// The warnings recorded, in order, each as plain values.
    pub closed spec fn recorded(&self) -> Seq<(WarningCode, Seq<char>, Seq<char>, Option<Seq<char>>)> {
        self.warnings@.map_values(|w: Warning| warning_view(w))
    }

    /// The codes of the warnings recorded, in order.
    pub closed spec fn codes(&self) -> Seq<WarningCode> {
        self.warnings@.map_values(|w: Warning| w.code)
    }

    /// The number of imports that could not be resolved.
    pub closed spec fn unresolved_count(&self) -> nat {
        self.unresolved as nat
    }

    /// An empty collector.
    pub fn new() -> (r: DiagnosticCollector)
        ensures
            r.codes() == Seq::<WarningCode>::empty(),
            r.recorded().len() == 0,
            r.unresolved_count() == 0,
    {
        let r = DiagnosticCollector { warnings: Vec::new(), unresolved: 0 };
        assert(r.codes() =~= Seq::<WarningCode>::empty());
        r
    }

    /// Record a warning.
    pub fn warn(&mut self, w: Warning)
        ensures
            final(self).codes() == old(self).codes().push(w.code),
            final(self).recorded() == old(self).recorded().push(warning_view(w)),
            final(self).unresolved_count() == old(self).unresolved_count(),
    {
        let ghost before = self.codes();
        let ghost rec = self.recorded();
        let ghost wv = warning_view(w);
        self.warnings.push(w);
        assert(self.codes() =~= before.push(w.code));
        assert(self.recorded() =~= rec.push(wv));
    }

    /// Count one more unresolved import (saturating at the largest count).
    pub fn increment_unresolved(&mut self)
        ensures
            final(self).codes() == old(self).codes(),
            final(self).recorded() == old(self).recorded(),
            old(self).unresolved_count() < usize::MAX ==> final(self).unresolved_count()
                == old(self).unresolved_count() + 1,
            old(self).unresolved_count() == usize::MAX ==> final(self).unresolved_count()
                == old(self).unresolved_count(),
    {
        if self.unresolved < usize::MAX {
            self.unresolved = self.unresolved + 1;
        }
    }

    /// Whether a warning with this code was recorded.
    pub fn has_code(&self, code: WarningCode) -> (r: bool)
        ensures
            r == self.codes().contains(code),
    {
        let mut i: usize = 0;
        while i < self.warnings.len()
            invariant
                i <= self.warnings.len(),
                forall|j: int| 0 <= j < i ==> self.warnings@[j].code != code,
            decreases self.warnings.len() - i,
        {
            if self.warnings[i].code == code {
                assert(self.codes()[i as int] == code);
                return true;
            }
            i += 1;
        }
        proof {
            if self.codes().contains(code) {
                let j = choose|j: int| 0 <= j < self.codes().len() && self.codes()[j] == code;
                assert(self.warnings@[j].code == code);
            }
        }
        false
    }

    /// Hand over everything gathered and start afresh.
    pub fn drain(&mut self) -> (r: DiagnosticReport)
        ensures
            r.warnings@.map_values(|w: Warning| w.code) == old(self).codes(),
            r.warnings@.map_values(|w: Warning| warning_view(w)) == old(self).recorded(),
            r.unresolved_imports == old(self).unresolved_count(),
            final(self).codes() == Seq::<WarningCode>::empty(),
            final(self).recorded().len() == 0,
            final(self).unresolved_count() == 0,
    {
        let mut warnings: Vec<Warning> = Vec::new();
        std::mem::swap(&mut warnings, &mut self.warnings);
        let unresolved_imports = self.unresolved;
        self.unresolved = 0;
        assert(self.codes() =~= Seq::<WarningCode>::empty());
        DiagnosticReport { warnings, unresolved_imports }
    }
}

} // verus!
