//! The error kinds that the startup path reports.

use vstd::prelude::*;

verus! {

/// A fatal startup error, reported to the operator with `message`.
#[derive(Debug)]
pub enum MyError {
    /// A file named on the command line does not exist.
    FileNotExistError { file: String },
    /// The output directory could not be created.
    CreateDirAllError { dir_name: String, error: String },
    /// A string could not be parsed into a number.
    ParseStringError { from: String, to: String, error: String },
    /// A command-line parameter is invalid.
    ParaError { para: String },
    /// Any other input/output failure.
    IoError { error: String },
}

impl MyError {
    /// The human-readable report of this error.
    pub open spec fn message_spec(&self) -> Seq<char> {
        match self {
            MyError::FileNotExistError { file } => "Error - "@ + file@ + " does not exist"@,
            MyError::CreateDirAllError { dir_name, error } => "Error - fs::create_dir_all "@
                + dir_name@ + ": "@ + error@,
            MyError::ParseStringError { from, to, error } => "Error - parse "@ + from@ + " -> "@
                + to@ + ": "@ + error@,
            MyError::ParaError { para } => "Error - "@ + para@,
            MyError::IoError { error } => "I/O error occurred"@,
        }
    }

    /// Render the human-readable report of this error.
    pub fn message(&self) -> (r: String)
        ensures
            r@ == self.message_spec(),
    {
        match self {
            MyError::FileNotExistError { file } => {
                let mut m = String::from_str("Error - ");
                m.append(file.as_str());
                m.append(" does not exist");
                m
            },
            MyError::CreateDirAllError { dir_name, error } => {
                let mut m = String::from_str("Error - fs::create_dir_all ");
                m.append(dir_name.as_str());
                m.append(": ");
                m.append(error.as_str());
                m
            },
            MyError::ParseStringError { from, to, error } => {
                let mut m = String::from_str("Error - parse ");
                m.append(from.as_str());
                m.append(" -> ");
                m.append(to.as_str());
                m.append(": ");
                m.append(error.as_str());
                m
            },
            MyError::ParaError { para } => {
                let mut m = String::from_str("Error - ");
                m.append(para.as_str());
                m
            },
            MyError::IoError { error: _ } => String::from_str("I/O error occurred"),
        }
    }
}

} // verus!
