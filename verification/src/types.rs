//! The catalog's data model: classified executables and runnable tests.

use vstd::prelude::*;

verus! {

/// The test framework a classified executable links against.
#[derive(Debug, Clone, Copy, PartialEq, Eq, Structural)]
pub enum ExecutableType {
    /// The GoogleTest family.
    Gtest,
    /// The Catch2 family.
    Catch2,
}

/// Mathematical model of an [`Executable`].
pub struct ExecutableModel {
    /// The path, as a character sequence.
    pub path: Seq<char>,
    /// Creation timestamp in nanoseconds since the epoch.
    pub modified: u128,
    /// The classified framework.
    pub executable_type: ExecutableType,
}

/// A discovered test binary: its path, creation timestamp and the
/// framework it was classified under. Immutable once constructed.
#[derive(Debug)]
pub struct Executable {
    /// Path of the binary on disk.
    pub path: String,
    /// Creation timestamp in nanoseconds since the epoch; informational
    /// metadata only, never a correctness input.
    pub modified: u128,
    /// The classified framework.
    pub executable_type: ExecutableType,
}

impl View for Executable {
    type V = ExecutableModel;

    open spec fn view(&self) -> ExecutableModel {
        ExecutableModel {
            path: self.path@,
            modified: self.modified,
            executable_type: self.executable_type,
        }
    }
}

impl DeepView for Executable {
    type V = ExecutableModel;

    open spec fn deep_view(&self) -> ExecutableModel {
        self@
    }
}

impl Clone for Executable {
    /// Clones preserve the model.
    fn clone(&self) -> (r: Self)
        ensures
            r@ == self@,
    {
        Executable {
            path: self.path.clone(),
            modified: self.modified,
            executable_type: self.executable_type,
        }
    }
}

/// Mathematical model of a [`Test`].
pub struct TestModel {
    /// The fully qualified test name.
    pub name: Seq<char>,
    /// The declared source file, when the listing carried one.
    pub file: Option<Seq<char>>,
    /// The declared source line, when the listing carried one.
    pub line: Option<u32>,
    /// The executable the test lives in.
    pub executable: ExecutableModel,
    /// The command-line arguments that select exactly this test.
    pub arguments: Seq<Seq<char>>,
    /// The stable index attached for interactive selection, if any.
    pub index: Option<usize>,
}

/// One runnable test: its name, declared source location, owning
/// executable and the argument list that selects exactly this test.
#[derive(Debug)]
pub struct Test {
    /// The fully qualified test name.
    pub name: String,
    /// The declared source file, when known.
    pub file: Option<String>,
    /// The declared source line, when known.
    pub line: Option<u32>,
    /// The executable the test lives in.
    pub executable: Executable,
    /// The command-line arguments that select exactly this test.
    pub arguments: Vec<String>,
    /// A stable index attached only when tests are handed to an
    /// interactive selector; no role in discovery or enumeration.
    pub index: Option<usize>,
}

impl View for Test {
    type V = TestModel;

    open spec fn view(&self) -> TestModel {
        TestModel {
            name: self.name@,
            file: match self.file {
                Some(f) => Some(f@),
                None => None,
            },
            line: self.line,
            executable: self.executable@,
            arguments: self.arguments.deep_view(),
            index: self.index,
        }
    }
}

impl DeepView for Test {
    type V = TestModel;

    open spec fn deep_view(&self) -> TestModel {
        self@
    }
}

/// Clones a string vector, preserving the view of every element.
pub(crate) fn clone_string_vec(v: &Vec<String>) -> (r: Vec<String>)
    ensures
        r.deep_view() == v.deep_view(),
{
    let mut out: Vec<String> = Vec::new();
    let n = v.len();
    let mut i: usize = 0;
    while i < n
        invariant
            n == v@.len(),
            i <= n,
            out@.len() == i,
            forall|j: int| 0 <= j < i ==> out@[j]@ == v@[j]@,
        decreases n - i,
    {
        out.push(v[i].clone());
        i = i + 1;
    }
    proof {
        assert(out.deep_view() =~= v.deep_view());
    }
    out
}

impl Clone for Test {
    /// Clones preserve the model.
    fn clone(&self) -> (r: Self)
        ensures
            r@ == self@,
    {
        let file = match &self.file {
            Some(f) => Some(f.clone()),
            None => None,
        };
        let r = Test {
            name: self.name.clone(),
            file,
            line: self.line,
            executable: self.executable.clone(),
            arguments: clone_string_vec(&self.arguments),
            index: self.index,
        };
        proof {
            assert(r@ == self@);
        }
        r
    }
}

impl Test {
    /// A copy of this test carrying the given selection index; every
    /// other field is unchanged.
    pub fn clone_with_index(&self, index: usize) -> (r: Self)
        ensures
            r@ == (TestModel { index: Some(index), ..self@ }),
    {
        let mut clone = self.clone();
        clone.index = Some(index);
        clone
    }
}

/// What a launch configuration's working directory is taken relative to.
#[derive(Debug, Clone, Copy, PartialEq, Eq, Structural)]
pub enum CwdRelativeTo {
    /// Relative to the directory holding the test's executable.
    Executable,
    /// Relative to the directory holding the test's source file.
    CppFile,
    /// Used as given.
    NoBase,
}

} // verus!
