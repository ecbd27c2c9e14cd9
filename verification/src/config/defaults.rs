//! The `[defaults]` settings a configuration file may give.
use vstd::prelude::*;

use crate::util::text;

verus! {

#[derive(Debug, Clone, PartialEq, Eq)]
pub struct Defaults {
    pub ignore_directories: Vec<String>,
    pub strict: bool,
    pub template_file: Option<String>,
    pub target_files: Vec<String>,
}

/// Mathematical picture of [`Defaults`].
pub struct DefaultsView {
    pub ignore_directories: Seq<Seq<char>>,
    pub strict: bool,
    pub template_file: Option<Seq<char>>,
    pub target_files: Seq<Seq<char>>,
}

impl View for Defaults {
    type V = DefaultsView;

    open spec fn view(&self) -> DefaultsView {
        DefaultsView {
            ignore_directories: self.ignore_directories.deep_view(),
            strict: self.strict,
            template_file: self.template_file.deep_view(),
            target_files: self.target_files.deep_view(),
        }
    }
}

/// The settings in force when the configuration says nothing: not strict, no
/// template or target files named, and `node_modules`, `target` and `dist`
/// ignored.
pub open spec fn default_settings() -> DefaultsView {
    DefaultsView {
        ignore_directories: seq!["node_modules"@, "target"@, "dist"@],
        strict: false,
        template_file: None,
        target_files: Seq::empty(),
    }
}

impl Default for Defaults {
    fn default() -> (d: Self)
        ensures
            d@ == default_settings(),
    {
        let mut ignore_directories: Vec<String> = Vec::new();
        ignore_directories.push(text("node_modules"));
        ignore_directories.push(text("target"));
        ignore_directories.push(text("dist"));
        let d = Defaults { ignore_directories, strict: false, template_file: None, target_files: Vec::new() };
        assert(d@.ignore_directories =~= default_settings().ignore_directories);
        assert(d@.target_files =~= default_settings().target_files);
        d
    }
}

} // verus!
