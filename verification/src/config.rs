//! The settings of a run.

use vstd::prelude::*;
use crate::text::strings_view;

verus! {

/// Where to look for files and where to put the copies.
#[derive(Debug, PartialEq, Eq)]
pub struct RenamerConfig {
    /// Which paths will be searched for images and videos.
    pub root_paths: Vec<String>,
    /// Where the copies of everything but raw images go.
    pub output_path: String,
    /// Where the copies of raw images go.
    pub raw_output_path: String,
    /// Path fragments to exclude from processing.
    pub exclusions: Vec<String>,
}

/// What a `RenamerConfig` stands for.
pub struct ConfigModel {
    pub root_paths: Seq<Seq<char>>,
    pub output_path: Seq<char>,
    pub raw_output_path: Seq<char>,
    pub exclusions: Seq<Seq<char>>,
}

impl View for RenamerConfig {
    type V = ConfigModel;

    open spec fn view(&self) -> ConfigModel {
        ConfigModel {
            root_paths: strings_view(self.root_paths@),
            output_path: self.output_path@,
            raw_output_path: self.raw_output_path@,
            exclusions: strings_view(self.exclusions@),
        }
    }
}

/// The settings that a fresh configuration file holds.
pub open spec fn default_settings() -> ConfigModel {
    ConfigModel {
        root_paths: seq!["."@],
        output_path: "./output"@,
        raw_output_path: "./output_raw"@,
        exclusions: seq!["exclusions"@, "output"@],
    }
}

impl RenamerConfig {
    /// The default settings: search the current directory, write to `output`
    /// and `output_raw` below it, and leave out what lies under them.
    pub fn new() -> (c: RenamerConfig)
        ensures
            c@ == default_settings(),
    {
        let mut root_paths: Vec<String> = Vec::new();
        root_paths.push(".".to_owned());
        let mut exclusions: Vec<String> = Vec::new();
        exclusions.push("exclusions".to_owned());
        exclusions.push("output".to_owned());
        let c = RenamerConfig {
            root_paths,
            output_path: "./output".to_owned(),
            raw_output_path: "./output_raw".to_owned(),
            exclusions,
        };
        proof {
            assert(c@.root_paths =~= default_settings().root_paths);
            assert(c@.exclusions =~= default_settings().exclusions);
        }
        c
    }
}

impl Clone for RenamerConfig {
    fn clone(&self) -> (r: Self)
        ensures
            r@ == self@,
    {
        let r = RenamerConfig {
            root_paths: clone_strings(&self.root_paths),
            output_path: self.output_path.clone(),
            raw_output_path: self.raw_output_path.clone(),
            exclusions: clone_strings(&self.exclusions),
        };
        r
    }
}

fn clone_strings(v: &Vec<String>) -> (r: Vec<String>)
    ensures
        strings_view(r@) == strings_view(v@),
{
    let mut r: Vec<String> = Vec::new();
    let mut i: usize = 0;
    while i < v.len()
        invariant
            i <= v.len(),
            strings_view(r@) == strings_view(v@.take(i as int)),
        decreases v.len() - i,
    {
        let ghost done = strings_view(r@);
        r.push(v[i].clone());
        i += 1;
        proof {
            assert(strings_view(r@) =~= done.push(v@[i - 1]@));
            assert(strings_view(r@) =~= strings_view(v@.take(i as int)));
        }
    }
    proof {
        assert(v@.take(v@.len() as int) =~= v@);
    }
    r
}

} // verus!
