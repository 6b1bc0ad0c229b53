//! The dialog that imports a tweakcn export, as a state machine.
//!
//! The dialog's state is what it shows and remembers: the pasted CSS, the
//! theme name, the last parse outcome, the gamut policy and an error line.
//! Each action or outcome changes that state and tells the host what to do
//! next (write the theme files, read a dropped file, parse the CSS, emit an
//! event); the host does that work and hands the outcome back.

use vstd::prelude::*;
use crate::text::{chars_of, chars_of_string, concat, eq_chars, string_of, trim, trim_vec};
use crate::themes::GamutPolicy;

verus! {

/// What the body of the import dialog can be asked to do.
pub enum ImportThemeBodyAction {
    Save,
    Cancel,
    ToggleClamp,
    /// Files dropped on the dialog, by path: the first `.css` one is read.
    FileDropped(Vec<String>),
}

/// What the dialog's frame can be asked to do.
pub enum ImportThemeModalAction {
    Cancel,
}

/// A theme file the importer wrote: the name it is listed under, and its path.
#[derive(Clone, Debug, PartialEq, Eq)]
pub struct ImportedTheme {
    pub name: String,
    pub path: String,
}

/// What the body of the dialog tells the frame around it.
pub enum ImportThemeBodyEvent {
    Close,
    ThemeSaved { theme: ImportedTheme },
    ShowError { message: String },
}

/// What the dialog tells the settings page.
pub enum ImportThemeModalEvent {
    Close,
    ThemeSaved { theme: ImportedTheme },
    ShowErrorToast { message: String },
}

/// What the dialog reads of a parsed export: how many colors its light and
/// dark blocks define, and the theme name its comments give.
#[derive(Clone, Debug, PartialEq, Eq)]
pub struct ParsedThemeInfo {
    pub light_colors: usize,
    pub dark_colors: usize,
    pub name_comment: Option<String>,
}

/// The state of the dialog's body.
pub struct ImportThemeBody {
    pub css_text: String,
    pub name: String,
    /// The outcome of the last parse: `None` while the CSS is blank.
    pub parse_result: Option<Result<ParsedThemeInfo, String>>,
    pub clamp_out_of_gamut: bool,
    /// The error line under the form.
    pub show_error: Option<String>,
    /// Changes on every edit of the CSS; a parse scheduled with an older
    /// value is stale.
    pub pending_parse_token: u64,
}

/// The work the body asks of its host after an action.
pub enum BodyRequest {
    Nothing,
    Emit(ImportThemeBodyEvent),
    /// Write the theme files under this name, then hand the outcome to
    /// `finish_save`.
    WriteTheme { slug: String, policy: GamutPolicy },
    /// Read this file, then hand the outcome to `finish_file_read`.
    ReadFile { path: String },
}

/// The texts and switches the dialog displays for its state.
pub struct ImportStatus {
    pub light_text: &'static str,
    pub dark_text: &'static str,
    pub clamp_label: &'static str,
    pub save_enabled: bool,
}

/// The stem of a path's file name (`Path::file_stem`), under the path rules
/// of the platform the crate is built for.
pub uninterp spec fn path_file_stem_of(path: Seq<char>) -> Option<Seq<char>>;

/// The extension of a path's file name (`Path::extension`), under the path
/// rules of the platform the crate is built for.
pub uninterp spec fn path_extension_of(path: Seq<char>) -> Option<Seq<char>>;

pub open spec fn opt_text(o: Option<String>) -> Option<Seq<char>> {
    match o {
        Some(s) => Some(s@),
        None => None,
    }
}

/// `Path::file_stem`: its result is named; nothing is stated of it.
#[verifier::external_body]
fn path_file_stem(path: &str) -> (r: Option<String>)
    ensures
        opt_text(r) == path_file_stem_of(path@),
{
    match std::path::Path::new(path).file_stem() {
        Some(stem) => stem.to_str().map(String::from),
        None => None,
    }
}

/// `Path::extension`: its result is named; nothing is stated of it.
#[verifier::external_body]
fn path_extension(path: &str) -> (r: Option<String>)
    ensures
        opt_text(r) == path_extension_of(path@),
{
    match std::path::Path::new(path).extension() {
        Some(ext) => ext.to_str().map(String::from),
        None => None,
    }
}

pub open spec fn css_extension() -> Seq<char> {
    "css"@
}

pub open spec fn no_blocks_written_message() -> Seq<char> {
    "No color blocks were written — check your CSS."@
}

pub open spec fn only_css_message() -> Seq<char> {
    "Only .css files are supported."@
}

pub open spec fn write_failed_prefix() -> Seq<char> {
    "Write failed: "@
}

pub open spec fn read_failed_prefix() -> Seq<char> {
    "Read failed: "@
}

pub open spec fn default_dropped_name() -> Seq<char> {
    "imported-theme"@
}

/// Whether the n-th extension is `css`, and no earlier one is.
pub open spec fn is_first_css(exts: Seq<Option<Seq<char>>>, n: int) -> bool {
    &&& 0 <= n < exts.len()
    &&& exts[n] == Some(css_extension())
    &&& forall|j: int| 0 <= j < n ==> exts[j] != Some(css_extension())
}

pub open spec fn no_css(exts: Seq<Option<Seq<char>>>) -> bool {
    forall|j: int| 0 <= j < exts.len() ==> exts[j] != Some(css_extension())
}

/// The extensions of a list of paths.
pub open spec fn extensions_of(paths: Seq<String>) -> Seq<Option<Seq<char>>> {
    Seq::new(paths.len(), |i: int| path_extension_of(paths[i]@))
}

/// Picks the first path whose extension is `css`, given each path's
/// extension.
pub fn pick_css_path(extensions: &Vec<Option<String>>) -> (r: Option<usize>)
    ensures
        match r {
            Some(n) => is_first_css(extensions@.map_values(|o: Option<String>| opt_text(o)), n as int),
            None => no_css(extensions@.map_values(|o: Option<String>| opt_text(o))),
        },
{
    let ghost exts = extensions@.map_values(|o: Option<String>| opt_text(o));
    let css = chars_of("css");
    let mut i: usize = 0;
    while i < extensions.len()
        invariant
            i <= extensions.len(),
            css@ == css_extension(),
            exts == extensions@.map_values(|o: Option<String>| opt_text(o)),
            forall|j: int| 0 <= j < i ==> exts[j] != Some(css_extension()),
        decreases extensions.len() - i,
    {
        let hit = match &extensions[i] {
            Some(e) => eq_chars(&chars_of_string(e), &css),
            None => false,
        };
        if hit {
            return Some(i);
        }
        i += 1;
    }
    None
}

impl ImportThemeBody {
    /// Whether the form may be saved: the name is not blank and the last
    /// parse found colors.
    pub open spec fn can_save_spec(&self) -> bool {
        &&& trim(self.name@).len() > 0
        &&& match self.parse_result {
            Some(Ok(info)) => info.dark_colors > 0 || info.light_colors > 0,
            _ => false,
        }
    }

    /// Everything but the error line is the same in both states.
    pub open spec fn same_but_error(&self, other: &Self) -> bool {
        &&& self.css_text == other.css_text
        &&& self.name == other.name
        &&& self.parse_result == other.parse_result
        &&& self.clamp_out_of_gamut == other.clamp_out_of_gamut
        &&& self.pending_parse_token == other.pending_parse_token
    }

    /// An empty form that clamps out-of-gamut colors.
    pub fn new() -> (r: Self)
        ensures
            r.css_text@ == Seq::<char>::empty(),
            r.name@ == Seq::<char>::empty(),
            r.parse_result is None,
            r.clamp_out_of_gamut,
            r.show_error is None,
            r.pending_parse_token == 0,
    {
        ImportThemeBody {
            css_text: String::new(),
            name: String::new(),
            parse_result: None,
            clamp_out_of_gamut: true,
            show_error: None,
            pending_parse_token: 0,
        }
    }

    pub fn can_save(&self) -> (r: bool)
        ensures
            r == self.can_save_spec(),
    {
        let name = chars_of_string(&self.name);
        let trimmed = trim_vec(&name);
        if trimmed.len() == 0 {
            return false;
        }
        match &self.parse_result {
            Some(Ok(info)) => info.dark_colors > 0 || info.light_colors > 0,
            _ => false,
        }
    }

    /// The CSS was edited: the error line clears and any scheduled parse
    /// goes stale. Blank CSS drops the last parse; otherwise the result is
    /// the token to schedule a parse with.
    pub fn on_css_changed(&mut self, new_text: String) -> (r: Option<u64>)
        ensures
            final(self).css_text == new_text,
            final(self).show_error is None,
            final(self).name == old(self).name,
            final(self).clamp_out_of_gamut == old(self).clamp_out_of_gamut,
            final(self).pending_parse_token == old(self).pending_parse_token.wrapping_add(1),
            final(self).pending_parse_token != old(self).pending_parse_token,
            trim(new_text@).len() == 0 ==> r is None && final(self).parse_result is None,
            trim(new_text@).len() > 0 ==> r == Some(final(self).pending_parse_token)
                && final(self).parse_result == old(self).parse_result,
    {
        self.css_text = new_text;
        self.show_error = None;
        self.pending_parse_token = self.pending_parse_token.wrapping_add(1);
        let text = chars_of_string(&self.css_text);
        let trimmed = trim_vec(&text);
        if trimmed.len() == 0 {
            self.parse_result = None;
            None
        } else {
            Some(self.pending_parse_token)
        }
    }

    /// About to parse: blank CSS drops the last parse and needs none.
    /// The result says whether the host should parse `css_text` now.
    pub fn begin_parse(&mut self) -> (r: bool)
        ensures
            r == (trim(old(self).css_text@).len() > 0),
            !r ==> final(self).parse_result is None,
            r ==> final(self).parse_result == old(self).parse_result,
            final(self).css_text == old(self).css_text,
            final(self).name == old(self).name,
            final(self).clamp_out_of_gamut == old(self).clamp_out_of_gamut,
            final(self).show_error == old(self).show_error,
            final(self).pending_parse_token == old(self).pending_parse_token,
    {
        let text = chars_of_string(&self.css_text);
        let trimmed = trim_vec(&text);
        if trimmed.len() == 0 {
            self.parse_result = None;
            false
        } else {
            true
        }
    }

    /// A parse scheduled with `token` is due: it runs only if no edit came
    /// since, and then as `begin_parse` says.
    pub fn parse_timer_fired(&mut self, token: u64) -> (r: bool)
        ensures
            token != old(self).pending_parse_token ==> !r && *final(self) == *old(self),
            token == old(self).pending_parse_token ==> r == (trim(old(self).css_text@).len() > 0)
                && (!r ==> final(self).parse_result is None)
                && (r ==> final(self).parse_result == old(self).parse_result)
                && final(self).same_but_parse(old(self)),
    {
        if token != self.pending_parse_token {
            return false;
        }
        self.begin_parse()
    }

    /// Everything but the parse outcome is the same in both states.
    pub open spec fn same_but_parse(&self, other: &Self) -> bool {
        &&& self.css_text == other.css_text
        &&& self.name == other.name
        &&& self.clamp_out_of_gamut == other.clamp_out_of_gamut
        &&& self.show_error == other.show_error
        &&& self.pending_parse_token == other.pending_parse_token
    }

    /// Records a parse outcome; an empty name takes the theme name that the
    /// export's comments give. The result says whether the name was filled.
    pub fn finish_parse(&mut self, outcome: Result<ParsedThemeInfo, String>) -> (r: bool)
        ensures
            final(self).parse_result == Some(outcome),
            r == (old(self).name@.len() == 0 && (outcome matches Ok(info)
                && info.name_comment is Some)),
            r ==> final(self).name@ == outcome->Ok_0.name_comment->Some_0@,
            !r ==> final(self).name == old(self).name,
            final(self).css_text == old(self).css_text,
            final(self).clamp_out_of_gamut == old(self).clamp_out_of_gamut,
            final(self).show_error == old(self).show_error,
            final(self).pending_parse_token == old(self).pending_parse_token,
    {
        let mut filled = false;
        if chars_of_string(&self.name).len() == 0 {
            if let Ok(info) = &outcome {
                if let Some(hint) = &info.name_comment {
                    self.name = hint.clone();
                    filled = true;
                }
            }
        }
        self.parse_result = Some(outcome);
        filled
    }

    /// Flips the gamut policy.
    pub fn toggle_clamp(&mut self)
        ensures
            final(self).clamp_out_of_gamut == !old(self).clamp_out_of_gamut,
            final(self).css_text == old(self).css_text,
            final(self).name == old(self).name,
            final(self).parse_result == old(self).parse_result,
            final(self).show_error == old(self).show_error,
            final(self).pending_parse_token == old(self).pending_parse_token,
    {
        self.clamp_out_of_gamut = !self.clamp_out_of_gamut;
    }

    /// Closing without saving.
    pub fn cancel(&self) -> (r: ImportThemeBodyEvent)
        ensures
            r is Close,
    {
        ImportThemeBodyEvent::Close
    }

    /// Saving: when the form may be saved, write the theme under the trimmed
    /// name with the chosen gamut policy; otherwise nothing.
    pub fn save(&self) -> (r: BodyRequest)
        ensures
            !self.can_save_spec() ==> r is Nothing,
            self.can_save_spec() ==> (r matches BodyRequest::WriteTheme { slug, policy }
                && slug@ == trim(self.name@)
                && policy == (if self.clamp_out_of_gamut { GamutPolicy::Clamp } else { GamutPolicy::Strict })),
    {
        if !self.can_save() {
            return BodyRequest::Nothing;
        }
        let slug = string_of(&trim_vec(&chars_of_string(&self.name)));
        let policy = if self.clamp_out_of_gamut {
            GamutPolicy::Clamp
        } else {
            GamutPolicy::Strict
        };
        BodyRequest::WriteTheme { slug, policy }
    }

    /// The outcome of writing the theme files, with the file stem of the
    /// first path written. A theme that was written is announced under that
    /// stem (or the trimmed name) and the dialog closes; writing nothing, or
    /// failing, shows an error, and a failure is announced too.
    pub fn apply_save_outcome(
        &mut self,
        written: Result<Vec<String>, String>,
        first_stem: Option<String>,
    ) -> (r: Vec<ImportThemeBodyEvent>)
        ensures
            match written {
                Ok(paths) => if paths.len() > 0 {
                    &&& r.len() == 2
                    &&& r[0] matches ImportThemeBodyEvent::ThemeSaved { theme }
                    &&& theme.path == paths[0]
                    &&& theme.name@ == match first_stem {
                        Some(s) => s@,
                        None => trim(old(self).name@),
                    }
                    &&& r[1] is Close
                    &&& *final(self) == *old(self)
                } else {
                    &&& r.len() == 0
                    &&& opt_text(final(self).show_error) == Some(no_blocks_written_message())
                    &&& final(self).same_but_error(old(self))
                },
                Err(e) => {
                    &&& r.len() == 1
                    &&& r[0] matches ImportThemeBodyEvent::ShowError { message }
                    &&& message@ == write_failed_prefix() + e@
                    &&& final(self).show_error == Some(message)
                    &&& final(self).same_but_error(old(self))
                },
            },
    {
        let mut events: Vec<ImportThemeBodyEvent> = Vec::new();
        match written {
            Ok(paths) => {
                if paths.len() > 0 {
                    let name = match first_stem {
                        Some(s) => s,
                        None => string_of(&trim_vec(&chars_of_string(&self.name))),
                    };
                    let path = paths[0].clone();
                    events.push(ImportThemeBodyEvent::ThemeSaved { theme: ImportedTheme { name, path } });
                    events.push(ImportThemeBodyEvent::Close);
                } else {
                    self.show_error = Some(
                        string_of(&chars_of("No color blocks were written — check your CSS.")),
                    );
                }
            },
            Err(e) => {
                let message = string_of(&concat(&chars_of("Write failed: "), &chars_of_string(&e)));
                let shown = message.clone();
                self.show_error = Some(shown);
                events.push(ImportThemeBodyEvent::ShowError { message });
            },
        }
        events
    }

    /// The outcome of writing the theme files, by the paths written: as
    /// `apply_save_outcome` with the file stem of the first of them.
    pub fn finish_save(&mut self, written: Result<Vec<String>, String>) -> (r: Vec<
        ImportThemeBodyEvent,
    >)
        ensures
            match written {
                Ok(paths) => if paths.len() > 0 {
                    &&& r.len() == 2
                    &&& r[0] matches ImportThemeBodyEvent::ThemeSaved { theme }
                    &&& theme.path == paths[0]
                    &&& theme.name@ == match path_file_stem_of(paths[0]@) {
                        Some(s) => s,
                        None => trim(old(self).name@),
                    }
                    &&& r[1] is Close
                    &&& *final(self) == *old(self)
                } else {
                    &&& r.len() == 0
                    &&& opt_text(final(self).show_error) == Some(no_blocks_written_message())
                    &&& final(self).same_but_error(old(self))
                },
                Err(e) => {
                    &&& r.len() == 1
                    &&& r[0] matches ImportThemeBodyEvent::ShowError { message }
                    &&& message@ == write_failed_prefix() + e@
                    &&& final(self).show_error == Some(message)
                    &&& final(self).same_but_error(old(self))
                },
            },
    {
        let first_stem = match &written {
            Ok(paths) => if paths.len() > 0 {
                path_file_stem(paths[0].as_str())
            } else {
                None
            },
            Err(_) => None,
        };
        self.apply_save_outcome(written, first_stem)
    }

    /// Files were dropped on the dialog, given each one's extension: the
    /// first `.css` one is to be read; with none, the error line says so and
    /// the pasted CSS stays as it is.
    pub fn choose_dropped_file(
        &mut self,
        paths: Vec<String>,
        extensions: &Vec<Option<String>>,
    ) -> (r: Option<String>)
        requires
            extensions.len() == paths.len(),
        ensures
            match r {
                Some(p) => exists|n: int|
                    is_first_css(extensions@.map_values(|o: Option<String>| opt_text(o)), n)
                        && p == paths@[n],
                None => no_css(extensions@.map_values(|o: Option<String>| opt_text(o))),
            },
            r is Some ==> *final(self) == *old(self),
            r is None ==> opt_text(final(self).show_error) == Some(only_css_message())
                && final(self).same_but_error(old(self)),
    {
        match pick_css_path(extensions) {
            Some(n) => {
                let p = paths[n].clone();
                Some(p)
            },
            None => {
                self.show_error = Some(string_of(&chars_of("Only .css files are supported.")));
                None
            },
        }
    }

    /// Files were dropped on the dialog: the first whose extension is `css`
    /// is to be read; with none, the error line says so and the pasted CSS
    /// stays as it is.
    pub fn on_file_dropped(&mut self, paths: Vec<String>) -> (r: Option<String>)
        ensures
            match r {
                Some(p) => exists|n: int| is_first_css(extensions_of(paths@), n) && p == paths@[n],
                None => no_css(extensions_of(paths@)),
            },
            r is Some ==> *final(self) == *old(self),
            r is None ==> opt_text(final(self).show_error) == Some(only_css_message())
                && final(self).same_but_error(old(self)),
    {
        let mut extensions: Vec<Option<String>> = Vec::new();
        let mut i: usize = 0;
        while i < paths.len()
            invariant
                i <= paths.len(),
                extensions.len() == i,
                forall|j: int| 0 <= j < i ==> opt_text(#[trigger] extensions@[j]) == path_extension_of(paths@[j]@),
            decreases paths.len() - i,
        {
            let e = path_extension(paths[i].as_str());
            extensions.push(e);
            i += 1;
        }
        proof {
            assert(extensions@.map_values(|o: Option<String>| opt_text(o)) =~= extensions_of(paths@));
        }
        self.choose_dropped_file(paths, &extensions)
    }

    /// The outcome of reading a dropped file, with the file stem of its
    /// path. Its text replaces the CSS (an empty name takes the stem, or a
    /// default) and any scheduled parse goes stale; the result says whether
    /// to parse now. A failed read shows an error.
    pub fn apply_file_read(&mut self, stem: Option<String>, contents: Result<String, String>) -> (r: bool)
        ensures
            match contents {
                Ok(text) => {
                    &&& final(self).css_text == text
                    &&& final(self).name@ == if old(self).name@.len() == 0 {
                        match stem {
                            Some(s) => s@,
                            None => default_dropped_name(),
                        }
                    } else {
                        old(self).name@
                    }
                    &&& final(self).pending_parse_token == old(self).pending_parse_token.wrapping_add(1)
                    &&& r == (trim(text@).len() > 0)
                    &&& (!r ==> final(self).parse_result is None)
                    &&& (r ==> final(self).parse_result == old(self).parse_result)
                    &&& final(self).show_error == old(self).show_error
                    &&& final(self).clamp_out_of_gamut == old(self).clamp_out_of_gamut
                },
                Err(e) => {
                    &&& !r
                    &&& opt_text(final(self).show_error) == Some(read_failed_prefix() + e@)
                    &&& final(self).same_but_error(old(self))
                },
            },
    {
        match contents {
            Ok(text) => {
                if chars_of_string(&self.name).len() == 0 {
                    self.name = match stem {
                        Some(s) => s,
                        None => string_of(&chars_of("imported-theme")),
                    };
                }
                self.css_text = text;
                self.pending_parse_token = self.pending_parse_token.wrapping_add(1);
                self.begin_parse()
            },
            Err(e) => {
                self.show_error = Some(
                    string_of(&concat(&chars_of("Read failed: "), &chars_of_string(&e))),
                );
                false
            },
        }
    }

    /// The outcome of reading the dropped file at `path`: as
    /// `apply_file_read` with the file stem of that path.
    pub fn finish_file_read(&mut self, path: &str, contents: Result<String, String>) -> (r: bool)
        ensures
            match contents {
                Ok(text) => {
                    &&& final(self).css_text == text
                    &&& final(self).name@ == if old(self).name@.len() == 0 {
                        match path_file_stem_of(path@) {
                            Some(s) => s,
                            None => default_dropped_name(),
                        }
                    } else {
                        old(self).name@
                    }
                    &&& final(self).pending_parse_token == old(self).pending_parse_token.wrapping_add(1)
                    &&& r == (trim(text@).len() > 0)
                    &&& (!r ==> final(self).parse_result is None)
                    &&& (r ==> final(self).parse_result == old(self).parse_result)
                    &&& final(self).show_error == old(self).show_error
                    &&& final(self).clamp_out_of_gamut == old(self).clamp_out_of_gamut
                },
                Err(e) => {
                    &&& !r
                    &&& opt_text(final(self).show_error) == Some(read_failed_prefix() + e@)
                    &&& final(self).same_but_error(old(self))
                },
            },
    {
        let stem = path_file_stem(path);
        self.apply_file_read(stem, contents)
    }

    /// One action on the body, and the work it asks of the host.
    pub fn handle_action(&mut self, action: ImportThemeBodyAction) -> (r: BodyRequest)
        ensures
            match action {
                ImportThemeBodyAction::Save => {
                    &&& *final(self) == *old(self)
                    &&& !old(self).can_save_spec() ==> r is Nothing
                    &&& old(self).can_save_spec() ==> (r matches BodyRequest::WriteTheme { slug, policy }
                        && slug@ == trim(old(self).name@)
                        && policy == (if old(self).clamp_out_of_gamut { GamutPolicy::Clamp } else { GamutPolicy::Strict }))
                },
                ImportThemeBodyAction::Cancel => *final(self) == *old(self) && r matches BodyRequest::Emit(
                    ImportThemeBodyEvent::Close,
                ),
                ImportThemeBodyAction::ToggleClamp => {
                    &&& r is Nothing
                    &&& final(self).clamp_out_of_gamut == !old(self).clamp_out_of_gamut
                    &&& final(self).css_text == old(self).css_text
                    &&& final(self).name == old(self).name
                    &&& final(self).parse_result == old(self).parse_result
                    &&& final(self).show_error == old(self).show_error
                    &&& final(self).pending_parse_token == old(self).pending_parse_token
                },
                ImportThemeBodyAction::FileDropped(paths) => {
                    &&& (r matches BodyRequest::ReadFile { path } ==> exists|n: int|
                        is_first_css(extensions_of(paths@), n) && path == paths@[n])
                    &&& (r is ReadFile || r is Nothing)
                    &&& (r is Nothing <==> no_css(extensions_of(paths@)))
                    &&& r is ReadFile ==> *final(self) == *old(self)
                    &&& r is Nothing ==> opt_text(final(self).show_error) == Some(only_css_message())
                        && final(self).same_but_error(old(self))
                },
            },
    {
        match action {
            ImportThemeBodyAction::Save => self.save(),
            ImportThemeBodyAction::Cancel => BodyRequest::Emit(self.cancel()),
            ImportThemeBodyAction::ToggleClamp => {
                self.toggle_clamp();
                BodyRequest::Nothing
            },
            ImportThemeBodyAction::FileDropped(paths) => match self.on_file_dropped(paths) {
                Some(path) => BodyRequest::ReadFile { path },
                None => BodyRequest::Nothing,
            },
        }
    }

    /// The badges, the gamut switch's label and whether Save is enabled.
    pub fn status(&self) -> (r: ImportStatus)
        ensures
            r.light_text@ == (if self.parse_result matches Some(Ok(info)) && info.light_colors > 0 {
                "Light: ✓"@
            } else {
                "Light: –"@
            }),
            r.dark_text@ == (if self.parse_result matches Some(Ok(info)) && info.dark_colors > 0 {
                "Dark: ✓"@
            } else {
                "Dark: –"@
            }),
            r.clamp_label@ == (if self.clamp_out_of_gamut {
                "☑ Clamp out-of-gamut colors"@
            } else {
                "☐ Clamp out-of-gamut colors"@
            }),
            r.save_enabled == self.can_save_spec(),
    {
        let (has_light, has_dark) = match &self.parse_result {
            Some(Ok(info)) => (info.light_colors > 0, info.dark_colors > 0),
            _ => (false, false),
        };
        ImportStatus {
            light_text: if has_light { "Light: ✓" } else { "Light: –" },
            dark_text: if has_dark { "Dark: ✓" } else { "Dark: –" },
            clamp_label: if self.clamp_out_of_gamut {
                "☑ Clamp out-of-gamut colors"
            } else {
                "☐ Clamp out-of-gamut colors"
            },
            save_enabled: self.can_save(),
        }
    }
}

/// The dialog: its frame around the body.
pub struct ImportThemeModal {
    pub body: ImportThemeBody,
}

impl ImportThemeModal {
    pub fn new() -> (r: Self)
        ensures
            r.body.css_text@ == Seq::<char>::empty(),
            r.body.name@ == Seq::<char>::empty(),
            r.body.parse_result is None,
            r.body.clamp_out_of_gamut,
            r.body.show_error is None,
            r.body.pending_parse_token == 0,
    {
        ImportThemeModal { body: ImportThemeBody::new() }
    }

    /// What the frame tells the settings page for an event of its body.
    pub fn handle_body_event(&self, event: ImportThemeBodyEvent) -> (r: ImportThemeModalEvent)
        ensures
            match event {
                ImportThemeBodyEvent::Close => r is Close,
                ImportThemeBodyEvent::ThemeSaved { theme } => r == ImportThemeModalEvent::ThemeSaved { theme },
                ImportThemeBodyEvent::ShowError { message } => r
                    == ImportThemeModalEvent::ShowErrorToast { message },
            },
    {
        match event {
            ImportThemeBodyEvent::Close => ImportThemeModalEvent::Close,
            ImportThemeBodyEvent::ThemeSaved { theme } => ImportThemeModalEvent::ThemeSaved { theme },
            ImportThemeBodyEvent::ShowError { message } => ImportThemeModalEvent::ShowErrorToast {
                message,
            },
        }
    }

    /// Cancelling the dialog closes it.
    pub fn handle_action(&mut self, action: ImportThemeModalAction) -> (r: ImportThemeModalEvent)
        ensures
            r is Close,
            final(self).body == old(self).body,
    {
        match action {
            ImportThemeModalAction::Cancel => {
                let event = self.body.cancel();
                self.handle_body_event(event)
            },
        }
    }
}

} // verus!
