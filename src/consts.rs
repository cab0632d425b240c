use vstd::prelude::*;
use crate::text::views;

verus! {

/// The width of a file count in a report.
pub const FILE_COUNT_WIDTH: usize = 7;

/// The width of a line count in a report.
pub const LINE_COUNT_WIDTH: usize = 11;

/// The names of files and folders left out of every run.
pub fn initialize() -> (r: Vec<String>)
    ensures
        views(r@) == seq![
            "__pycache__"@,
            "build"@,
            "build.rs"@,
            "CVS"@,
            "dist"@,
            "setup.py"@,
            "target"@,
        ],
{
    let r = vec![
        "__pycache__".to_owned(),
        "build".to_owned(),
        "build.rs".to_owned(),
        "CVS".to_owned(),
        "dist".to_owned(),
        "setup.py".to_owned(),
        "target".to_owned(),
    ];
    assert(views(r@) =~= seq![
        "__pycache__"@,
        "build"@,
        "build.rs"@,
        "CVS"@,
        "dist"@,
        "setup.py"@,
        "target"@,
    ]);
    r
}

} // verus!
