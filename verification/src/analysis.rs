//! Descriptions of analysed functions and the settings of group domains.

use vstd::prelude::*;

verus! {

/// The settings of a manager of group domains.
#[derive(Debug, Clone, Copy, PartialEq, Eq, Structural)]
pub struct GroupDomainConfig {
    pub enable_widening: bool,
    pub enable_narrowing: bool,
    pub max_iterations: usize,
    pub widening_delay: usize,
    pub track_dependencies: bool,
    pub enable_invariant_checking: bool,
    pub enable_progress_tracking: bool,
}

impl Default for GroupDomainConfig {
    /// Everything enabled, at most 100 iterations, widening after 3.
    fn default() -> (c: GroupDomainConfig)
        ensures
            c == (GroupDomainConfig {
                enable_widening: true,
                enable_narrowing: true,
                max_iterations: 100,
                widening_delay: 3,
                track_dependencies: true,
                enable_invariant_checking: true,
                enable_progress_tracking: true,
            }),
    {
        GroupDomainConfig {
            enable_widening: true,
            enable_narrowing: true,
            max_iterations: 100,
            widening_delay: 3,
            track_dependencies: true,
            enable_invariant_checking: true,
            enable_progress_tracking: true,
        }
    }
}

/// A parameter of an analysed function.
#[derive(Debug)]
pub struct ParameterInfo {
    pub name: String,
    pub param_type: String,
}

/// An analysed function: its name, parameters, return type and complexity.
#[derive(Debug)]
pub struct FunctionAnalysis {
    pub name: String,
    pub parameters: Vec<ParameterInfo>,
    pub return_type: String,
    pub complexity: usize,
}

impl FunctionAnalysis {
    /// No name, no parameters, no return type, complexity 0.
    pub fn new() -> (f: FunctionAnalysis)
        ensures
            f.name@.len() == 0,
            f.parameters@.len() == 0,
            f.return_type@.len() == 0,
            f.complexity == 0,
    {
        FunctionAnalysis { name: String::new(), parameters: Vec::new(), return_type: String::new(), complexity: 0 }
    }

    pub fn with_name(self, name: String) -> (f: FunctionAnalysis)
        ensures
            f.name == name,
            f.parameters@ == self.parameters@,
            f.return_type == self.return_type,
            f.complexity == self.complexity,
    {
        let mut next = self;
        next.name = name;
        next
    }

    /// Appends a parameter.
    pub fn add_parameter(self, name: String, param_type: String) -> (f: FunctionAnalysis)
        ensures
            f.name == self.name,
            f.parameters@.len() == self.parameters@.len() + 1,
            forall|i: int| 0 <= i < self.parameters@.len() ==> f.parameters@[i] == self.parameters@[i],
            f.parameters@.last().name == name,
            f.parameters@.last().param_type == param_type,
            f.return_type == self.return_type,
            f.complexity == self.complexity,
    {
        let mut next = self;
        next.parameters.push(ParameterInfo { name, param_type });
        next
    }

    pub fn with_return_type(self, return_type: String) -> (f: FunctionAnalysis)
        ensures
            f.name == self.name,
            f.parameters@ == self.parameters@,
            f.return_type == return_type,
            f.complexity == self.complexity,
    {
        let mut next = self;
        next.return_type = return_type;
        next
    }

    pub fn with_complexity(self, complexity: usize) -> (f: FunctionAnalysis)
        ensures
            f.name == self.name,
            f.parameters@ == self.parameters@,
            f.return_type == self.return_type,
            f.complexity == complexity,
    {
        let mut next = self;
        next.complexity = complexity;
        next
    }
}

impl Default for FunctionAnalysis {
    fn default() -> (f: FunctionAnalysis)
        ensures
            f.name@.len() == 0,
            f.parameters@.len() == 0,
            f.return_type@.len() == 0,
            f.complexity == 0,
    {
        FunctionAnalysis::new()
    }
}

} // verus!
