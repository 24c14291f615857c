//! The state of the application between two frames, and what a search or a
//! click on one of its buttons comes to.

use crate::error::LookupError;
use crate::table::{strings_view, value_of, PartTable};
use crate::text::{replace_text, replaced, trim, trimmed};
use std::collections::VecDeque;
use vstd::prelude::*;

verus! {

/// The number of searches that the history keeps.
pub const HISTORY_LIMIT: usize = 10;

/// The address under which the vendor shows a datasheet in its viewer.
pub const DATASHEET_VIEWER: &'static str = "https://datasheet.lcsc.com/lcsc";

/// The address under which the vendor hands out the file of a datasheet.
pub const DATASHEET_FILES: &'static str = "https://wmsc.lcsc.com/wmsc/upload/file/pdf/v2/lcsc";

/// What the user has entered and set, the searches that succeeded, and the
/// part that is on show.
pub struct MyApp {
    pub part: String,
    pub exe_path: String,
    pub output_path: String,
    pub symbol_lib: String,
    pub symbol_lib_dir: String,
    pub footprint_lib: String,
    pub model_dir: String,
    pub model_base_variable: String,
    pub datasheet_dir: String,
    pub download_datasheet: bool,
    pub skip_existing: bool,
    pub no_footprint: bool,
    pub no_symbol: bool,
    pub history: VecDeque<String>,
    pub settings_open: bool,
    pub is_init: bool,
    pub search_good: bool,
    pub current_part: PartTable,
}

/// The history after a search for `part` succeeded: `part` in front of the
/// earlier searches, and of all of them the first ten.
pub open spec fn history_after(history: Seq<String>, part: String) -> Seq<String> {
    let all = seq![part] + history;
    if all.len() <= HISTORY_LIMIT {
        all
    } else {
        all.subrange(0, HISTORY_LIMIT as int)
    }
}

/// `flag` where `on` holds, nothing where it does not.
pub open spec fn flag_if(on: bool, flag: Seq<char>) -> Seq<Seq<char>> {
    if on {
        seq![flag]
    } else {
        Seq::empty()
    }
}

/// The arguments for the generator that adds the part `code` to the
/// library, as `app` is set.
pub open spec fn library_arguments(app: MyApp, code: Seq<char>) -> Seq<Seq<char>> {
    seq![
        code,
        "-dir"@,
        app.output_path@,
        "-symbol_lib"@,
        app.symbol_lib@,
        "-symbol_lib_dir"@,
        app.symbol_lib_dir@,
        "-footprint_lib"@,
        app.footprint_lib@,
        "-model_dir"@,
        app.model_dir@,
    ] + (if app.model_base_variable@.len() > 0 {
        seq!["-model_base_variable"@, app.model_base_variable@]
    } else {
        Seq::empty()
    }) + flag_if(app.skip_existing, "--skip_existing"@) + flag_if(
        app.no_footprint,
        "--no_footprint"@,
    ) + flag_if(app.no_symbol, "--no_symbol"@)
}

/// The arguments for the generator that writes the footprint of the part
/// `code` below the directory `dir`.
pub open spec fn footprint_arguments(code: Seq<char>, dir: Seq<char>) -> Seq<Seq<char>> {
    seq![
        code,
        "--no_symbol"@,
        "-dir"@,
        dir,
        "-footprint_lib"@,
        code,
        "-model_dir"@,
        "packages3d"@,
    ]
}

impl MyApp {
    /// The state of an application that is started for the first time.
    pub open spec fn is_fresh(&self) -> bool {
        &&& self.part@ == "C11702"@
        &&& self.exe_path@ == "JLC2KiCadLib"@
        &&& self.output_path@ == "~/kicad_libs/"@
        &&& self.symbol_lib@ == "default_lib"@
        &&& self.symbol_lib_dir@ == "symbol"@
        &&& self.footprint_lib@ == "footprint"@
        &&& self.model_dir@ == "packages3d"@
        &&& self.model_base_variable@ == ""@
        &&& self.datasheet_dir@ == "~/kicad_libs/datasheets"@
        &&& self.download_datasheet
        &&& !self.skip_existing
        &&& !self.no_footprint
        &&& !self.no_symbol
        &&& self.history@.len() == 0
        &&& !self.settings_open
        &&& !self.is_init
        &&& self.search_good
        &&& self.current_part@.len() == 0
    }

    /// Whether the part that is entered still has to be looked up for the
    /// first frame.
    pub open spec fn first_lookup_is_due(&self) -> bool {
        !self.is_init && self.current_part@.len() == 0 && self.part@.len() > 0
    }

    /// The state to start with: the one that was stored, or a fresh one.
    pub fn new(stored: Option<MyApp>) -> (app: MyApp)
        ensures
            match stored {
                Some(s) => app == s,
                None => app.is_fresh(),
            },
    {
        match stored {
            Some(s) => s,
            None => MyApp::default(),
        }
    }

    /// Whether the part that is entered still has to be looked up for the
    /// first frame.
    pub fn needs_first_lookup(&self) -> (r: bool)
        ensures
            r == self.first_lookup_is_due(),
    {
        !self.is_init && self.current_part.len() == 0 && !self.part.as_str().is_empty()
    }

    /// Takes what the first lookup gave: its table is put on show, and the
    /// search counts as good exactly if there is one.
    pub fn finish_first_lookup(&mut self, outcome: Result<PartTable, LookupError>)
        ensures
            *final(self) == (MyApp {
                is_init: true,
                search_good: outcome is Ok,
                current_part: match outcome {
                    Ok(table) => table,
                    Err(_) => old(self).current_part,
                },
                ..*old(self)
            }),
    {
        match outcome {
            Ok(table) => {
                self.current_part = table;
                self.search_good = true;
            },
            Err(_) => {
                self.search_good = false;
            },
        }
        self.is_init = true;
    }

    /// Trims the part that is entered, as a search does before it looks it
    /// up.
    pub fn begin_search(&mut self)
        ensures
            final(self).part@ == trimmed(old(self).part@),
            *final(self) == (MyApp { part: final(self).part, ..*old(self) }),
    {
        self.part = trim(self.part.as_str());
    }

    /// Takes what a search gave. A table is put on show, the search counts
    /// as good, and the part that was searched for goes to the front of
    /// the history, which keeps ten. An error leaves the part on show and
    /// the history as they are, and the search counts as failed.
    pub fn finish_search(&mut self, outcome: Result<PartTable, LookupError>)
        ensures
            match outcome {
                Ok(table) => final(self).history@ == history_after(
                    old(self).history@,
                    old(self).part,
                ) && *final(self) == (MyApp {
                    search_good: true,
                    current_part: table,
                    history: final(self).history,
                    ..*old(self)
                }),
                Err(_) => *final(self) == (MyApp { search_good: false, ..*old(self) }),
            },
    {
        match outcome {
            Ok(table) => {
                self.current_part = table;
                self.search_good = true;
                self.history.push_front(self.part.clone());
                self.history.truncate(HISTORY_LIMIT);
            },
            Err(_) => {
                self.search_good = false;
            },
        }
    }

    /// The arguments for the generator that adds the part on show to the
    /// library; none where the table on show has no part code.
    pub fn library_args(&self) -> (r: Option<Vec<String>>)
        ensures
            match value_of(self.current_part@, "Component Code"@) {
                Some(code) => r is Some && strings_view(r.unwrap()@) == library_arguments(
                    *self,
                    code,
                ),
                None => r is None,
            },
    {
        let code = match self.current_part.component_code() {
            Some(code) => code,
            None => {
                return None;
            },
        };
        let mut args: Vec<String> = Vec::new();
        args.push(code.clone());
        args.push(String::from_str("-dir"));
        args.push(self.output_path.clone());
        args.push(String::from_str("-symbol_lib"));
        args.push(self.symbol_lib.clone());
        args.push(String::from_str("-symbol_lib_dir"));
        args.push(self.symbol_lib_dir.clone());
        args.push(String::from_str("-footprint_lib"));
        args.push(self.footprint_lib.clone());
        args.push(String::from_str("-model_dir"));
        args.push(self.model_dir.clone());
        if !self.model_base_variable.as_str().is_empty() {
            args.push(String::from_str("-model_base_variable"));
            args.push(self.model_base_variable.clone());
        }
        if self.skip_existing {
            args.push(String::from_str("--skip_existing"));
        }
        if self.no_footprint {
            args.push(String::from_str("--no_footprint"));
        }
        if self.no_symbol {
            args.push(String::from_str("--no_symbol"));
        }
        assert(strings_view(args@) =~= library_arguments(*self, code@));
        Some(args)
    }

    /// The arguments for the generator that writes the footprint of the
    /// part on show below `dir`; none where the table on show has no part
    /// code.
    pub fn footprint_args(&self, dir: &str) -> (r: Option<Vec<String>>)
        ensures
            match value_of(self.current_part@, "Component Code"@) {
                Some(code) => r is Some && strings_view(r.unwrap()@) == footprint_arguments(
                    code,
                    dir@,
                ),
                None => r is None,
            },
    {
        let code = match self.current_part.component_code() {
            Some(code) => code,
            None => {
                return None;
            },
        };
        let mut args: Vec<String> = Vec::new();
        args.push(code.clone());
        args.push(String::from_str("--no_symbol"));
        args.push(String::from_str("-dir"));
        args.push(String::from_str(dir));
        args.push(String::from_str("-footprint_lib"));
        args.push(code.clone());
        args.push(String::from_str("-model_dir"));
        args.push(String::from_str("packages3d"));
        assert(strings_view(args@) =~= footprint_arguments(code@, dir@));
        Some(args)
    }

    /// Where the generator leaves the footprints of the part on show below
    /// `dir`, as a pattern for file names; none where the table on show
    /// has no part code.
    pub fn footprint_pattern(&self, dir: &str) -> (r: Option<String>)
        ensures
            match value_of(self.current_part@, "Component Code"@) {
                Some(code) => r is Some && r.unwrap()@ == dir@ + "/"@ + code + "/*.kicad_mod"@,
                None => r is None,
            },
    {
        match self.current_part.component_code() {
            Some(code) => {
                let mut pattern = String::from_str(dir);
                pattern.append("/");
                pattern.append(code.as_str());
                pattern.append("/*.kicad_mod");
                Some(pattern)
            },
            None => None,
        }
    }

    /// The address to download the datasheet of the part on show from: the
    /// address in the table, with the vendor's viewer replaced by its file
    /// store; none where the table on show has no datasheet.
    pub fn datasheet_download_url(&self) -> (r: Option<String>)
        ensures
            match value_of(self.current_part@, "meta_datasheeturl"@) {
                Some(url) => r is Some && r.unwrap()@ == replaced(
                    url,
                    DATASHEET_VIEWER@,
                    DATASHEET_FILES@,
                ),
                None => r is None,
            },
    {
        match self.current_part.datasheet_url() {
            Some(url) => Some(replace_text(url.as_str(), DATASHEET_VIEWER, DATASHEET_FILES)),
            None => None,
        }
    }
}

impl Default for MyApp {
    /// The state of an application that is started for the first time.
    fn default() -> (app: MyApp)
        ensures
            app.is_fresh(),
    {
        MyApp {
            part: String::from_str("C11702"),
            exe_path: String::from_str("JLC2KiCadLib"),
            output_path: String::from_str("~/kicad_libs/"),
            symbol_lib: String::from_str("default_lib"),
            symbol_lib_dir: String::from_str("symbol"),
            footprint_lib: String::from_str("footprint"),
            model_dir: String::from_str("packages3d"),
            model_base_variable: String::from_str(""),
            datasheet_dir: String::from_str("~/kicad_libs/datasheets"),
            download_datasheet: true,
            skip_existing: false,
            no_footprint: false,
            no_symbol: false,
            history: VecDeque::with_capacity(11),
            settings_open: false,
            is_init: false,
            search_good: true,
            current_part: PartTable::new(),
        }
    }
}

} // verus!
