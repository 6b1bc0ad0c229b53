//! The language servers the editor supports: how each is named and run, the
//! languages it serves, and which installation of its binary is used.

use vstd::prelude::*;
use itertools::Itertools;
use std::path::PathBuf;
use crate::markdown::types::strs;
use crate::text::{chars_of, join, string_of};

verus! {

/// `std::path::PathBuf`, carried through as an opaque value.
#[verifier::external_type_specification]
#[verifier::external_body]
pub struct ExPathBuf(PathBuf);

/// `PathBuf::clone` returns a copy of the path.
pub assume_specification[ <PathBuf as Clone>::clone ](p: &PathBuf) -> (r: PathBuf)
    ensures
        r == *p,
;

// ============================================================================
// Languages
// ============================================================================

#[derive(Debug, Clone, Copy, PartialEq, Eq, Structural)]
pub enum LanguageId {
    Rust,
    Go,
    Python,
    TypeScript,
    TypeScriptReact,
    JavaScript,
    JavaScriptReact,
    C,
    Cpp,
}

/// The language identifier of the Language Server Protocol.
pub open spec fn lsp_id(l: LanguageId) -> Seq<char> {
    match l {
        LanguageId::Rust => seq!['r', 'u', 's', 't'],
        LanguageId::Go => seq!['g', 'o'],
        LanguageId::Python => seq!['p', 'y', 't', 'h', 'o', 'n'],
        LanguageId::TypeScript => seq!['t', 'y', 'p', 'e', 's', 'c', 'r', 'i', 'p', 't'],
        LanguageId::TypeScriptReact => seq![
            't', 'y', 'p', 'e', 's', 'c', 'r', 'i', 'p', 't', 'r', 'e', 'a', 'c', 't',
        ],
        LanguageId::JavaScript => seq!['j', 'a', 'v', 'a', 's', 'c', 'r', 'i', 'p', 't'],
        LanguageId::JavaScriptReact => seq![
            'j', 'a', 'v', 'a', 's', 'c', 'r', 'i', 'p', 't', 'r', 'e', 'a', 'c', 't',
        ],
        LanguageId::C => seq!['c'],
        LanguageId::Cpp => seq!['c', 'p', 'p'],
    }
}

impl LanguageId {
    /// The language identifier of the Language Server Protocol.
    pub fn lsp_language_identifier(&self) -> (r: &'static str)
        ensures
            r@ == lsp_id(*self),
    {
        proof {
            reveal_strlit("rust");
            reveal_strlit("go");
            reveal_strlit("python");
            reveal_strlit("typescript");
            reveal_strlit("typescriptreact");
            reveal_strlit("javascript");
            reveal_strlit("javascriptreact");
            reveal_strlit("c");
            reveal_strlit("cpp");
        }
        match self {
            LanguageId::Rust => "rust",
            LanguageId::Go => "go",
            LanguageId::Python => "python",
            LanguageId::TypeScript => "typescript",
            LanguageId::TypeScriptReact => "typescriptreact",
            LanguageId::JavaScript => "javascript",
            LanguageId::JavaScriptReact => "javascriptreact",
            LanguageId::C => "c",
            LanguageId::Cpp => "cpp",
        }
    }
}

// ============================================================================
// Servers
// ============================================================================

/// The language servers supported by the editor. The variant names are
/// stored in the settings database, so they must not be renamed.
#[derive(Debug, Clone, Copy, PartialEq, Eq, Hash, Structural)]
pub enum LSPServerType {
    RustAnalyzer,
    GoPls,
    Pyright,
    TypeScriptLanguageServer,
    Clangd,
}

pub open spec fn binary_name_of(t: LSPServerType) -> Seq<char> {
    match t {
        LSPServerType::RustAnalyzer => seq![
            'r', 'u', 's', 't', '-', 'a', 'n', 'a', 'l', 'y', 'z', 'e', 'r',
        ],
        LSPServerType::GoPls => seq!['g', 'o', 'p', 'l', 's'],
        LSPServerType::Pyright => seq![
            'p', 'y', 'r', 'i', 'g', 'h', 't', '-', 'l', 'a', 'n', 'g', 's', 'e', 'r', 'v', 'e', 'r',
        ],
        LSPServerType::TypeScriptLanguageServer => seq![
            't', 'y', 'p', 'e', 's', 'c', 'r', 'i', 'p', 't', '-', 'l', 'a', 'n', 'g', 'u', 'a',
            'g', 'e', '-', 's', 'e', 'r', 'v', 'e', 'r',
        ],
        LSPServerType::Clangd => seq!['c', 'l', 'a', 'n', 'g', 'd'],
    }
}

pub open spec fn stdio() -> Seq<char> {
    seq!['-', '-', 's', 't', 'd', 'i', 'o']
}

/// Node-based servers talk over stdio when asked to; the others by default.
pub open spec fn needs_stdio_flag(t: LSPServerType) -> bool {
    t == LSPServerType::Pyright || t == LSPServerType::TypeScriptLanguageServer
}

pub open spec fn flags_of(t: LSPServerType) -> Seq<Seq<char>> {
    if needs_stdio_flag(t) {
        seq![stdio()]
    } else {
        Seq::empty()
    }
}

pub open spec fn str_views(v: Seq<&str>) -> Seq<Seq<char>> {
    v.map_values(|s: &str| s@)
}

pub open spec fn languages_of(t: LSPServerType) -> Seq<LanguageId> {
    match t {
        LSPServerType::RustAnalyzer => seq![LanguageId::Rust],
        LSPServerType::GoPls => seq![LanguageId::Go],
        LSPServerType::Pyright => seq![LanguageId::Python],
        LSPServerType::TypeScriptLanguageServer => seq![
            LanguageId::TypeScript,
            LanguageId::TypeScriptReact,
            LanguageId::JavaScript,
            LanguageId::JavaScriptReact,
        ],
        LSPServerType::Clangd => seq![LanguageId::C, LanguageId::Cpp],
    }
}

pub open spec fn ascii_upper(c: char) -> char {
    if 'a' <= c && c <= 'z' {
        ((c as u32) - 32) as char
    } else {
        c
    }
}

/// The text with its first character in upper case.
pub open spec fn capitalized(s: Seq<char>) -> Seq<char> {
    if s.len() == 0 {
        s
    } else {
        seq![ascii_upper(s[0])] + s.skip(1)
    }
}

pub open spec fn typescript_javascript() -> Seq<char> {
    seq![
        'T', 'y', 'p', 'e', 'S', 'c', 'r', 'i', 'p', 't', '/', 'J', 'a', 'v', 'a', 'S', 'c', 'r',
        'i', 'p', 't',
    ]
}

/// The display name of a server's languages: their identifiers capitalized
/// and joined by `/`, except for the TypeScript server.
pub open spec fn language_name_of(t: LSPServerType) -> Seq<char> {
    if t == LSPServerType::TypeScriptLanguageServer {
        typescript_javascript()
    } else {
        join(languages_of(t).map_values(|l: LanguageId| capitalized(lsp_id(l))), seq!['/'])
    }
}

/// `Itertools::join` over strings: the strings in order, `sep` between
/// neighbours (each element is written with `Display`, which for a
/// `String` is its text).
#[verifier::external_body]
fn join_strings(parts: &Vec<String>, sep: &str) -> (r: String)
    ensures
        r@ == join(strs(parts@), sep@),
{
    parts.iter().join(sep)
}

fn capitalized_exec(s: &str) -> (r: String)
    ensures
        r@ == capitalized(s@),
{
    let v = chars_of(s);
    if v.len() == 0 {
        return string_of(&v);
    }
    let mut out: Vec<char> = Vec::new();
    let c = v[0];
    let u = if 'a' <= c && c <= 'z' {
        ((c as u8) - 32) as char
    } else {
        c
    };
    assert(u == ascii_upper(c)) by {
        if 'a' <= c && c <= 'z' {
            assert((c as u32) < 256);
        }
    };
    out.push(u);
    let mut i: usize = 1;
    while i < v.len()
        invariant
            1 <= i <= v.len(),
            out@ == seq![u] + v@.subrange(1, i as int),
        decreases v.len() - i,
    {
        out.push(v[i]);
        i += 1;
        assert(out@ =~= seq![u] + v@.subrange(1, i as int));
    }
    assert(v@.subrange(1, v.len() as int) =~= v@.skip(1));
    string_of(&out)
}

pub open spec fn all_servers() -> Seq<LSPServerType> {
    seq![
        LSPServerType::RustAnalyzer,
        LSPServerType::GoPls,
        LSPServerType::Pyright,
        LSPServerType::TypeScriptLanguageServer,
        LSPServerType::Clangd,
    ]
}

impl LSPServerType {
    /// The executable's name when run from `PATH`.
    pub fn binary_name(&self) -> (r: &'static str)
        ensures
            r@ == binary_name_of(*self),
    {
        proof {
            reveal_strlit("rust-analyzer");
            reveal_strlit("gopls");
            reveal_strlit("pyright-langserver");
            reveal_strlit("typescript-language-server");
            reveal_strlit("clangd");
        }
        match self {
            LSPServerType::RustAnalyzer => "rust-analyzer",
            LSPServerType::GoPls => "gopls",
            LSPServerType::Pyright => "pyright-langserver",
            LSPServerType::TypeScriptLanguageServer => "typescript-language-server",
            LSPServerType::Clangd => "clangd",
        }
    }

    /// Arguments when run from `PATH`.
    pub fn args(&self) -> (r: Vec<&'static str>)
        ensures
            str_views(r@) == flags_of(*self),
    {
        let mut r: Vec<&'static str> = Vec::new();
        match self {
            LSPServerType::Pyright | LSPServerType::TypeScriptLanguageServer => {
                proof {
                    reveal_strlit("--stdio");
                }
                r.push("--stdio");
                assert("--stdio"@ =~= stdio());
                assert(str_views(r@) =~= flags_of(*self));
            },
            _ => {
                assert(str_views(r@) =~= flags_of(*self));
            },
        }
        r
    }

    /// Arguments when run from a custom installation, after its own
    /// leading arguments.
    pub fn custom_install_args(&self) -> (r: Vec<&'static str>)
        ensures
            str_views(r@) == flags_of(*self),
    {
        self.args()
    }

    /// The languages this server serves.
    pub fn languages(&self) -> (r: Vec<LanguageId>)
        ensures
            r@ == languages_of(*self),
    {
        let mut r: Vec<LanguageId> = Vec::new();
        match self {
            LSPServerType::RustAnalyzer => r.push(LanguageId::Rust),
            LSPServerType::GoPls => r.push(LanguageId::Go),
            LSPServerType::Pyright => r.push(LanguageId::Python),
            LSPServerType::TypeScriptLanguageServer => {
                r.push(LanguageId::TypeScript);
                r.push(LanguageId::TypeScriptReact);
                r.push(LanguageId::JavaScript);
                r.push(LanguageId::JavaScriptReact);
            },
            LSPServerType::Clangd => {
                r.push(LanguageId::C);
                r.push(LanguageId::Cpp);
            },
        }
        assert(r@ =~= languages_of(*self));
        r
    }

    /// A display name for the server's languages, such as `C/Cpp`.
    pub fn language_name(&self) -> (r: String)
        ensures
            r@ == language_name_of(*self),
    {
        if *self == LSPServerType::TypeScriptLanguageServer {
            let v = chars_of("TypeScript/JavaScript");
            proof {
                reveal_strlit("TypeScript/JavaScript");
            }
            assert(v@ =~= typescript_javascript());
            return string_of(&v);
        }
        let langs = self.languages();
        let ghost want = langs@.map_values(|l: LanguageId| capitalized(lsp_id(l)));
        let mut names: Vec<String> = Vec::new();
        let mut i: usize = 0;
        while i < langs.len()
            invariant
                i <= langs.len(),
                want == langs@.map_values(|l: LanguageId| capitalized(lsp_id(l))),
                strs(names@) == want.take(i as int),
            decreases langs.len() - i,
        {
            let id = langs[i].lsp_language_identifier();
            let ghost n0 = strs(names@);
            names.push(capitalized_exec(id));
            assert(strs(names@) =~= n0.push(want[i as int]));
            i += 1;
            assert(want.take(i as int) =~= n0.push(want[i - 1]));
        }
        assert(want.take(langs.len() as int) =~= want);
        let sep = "/";
        proof {
            reveal_strlit("/");
            assert(sep@ =~= seq!['/']);
        }
        join_strings(&names, sep)
    }

    /// Every supported server, in declaration order.
    pub fn all() -> (r: Vec<LSPServerType>)
        ensures
            r@ == all_servers(),
    {
        let mut r: Vec<LSPServerType> = Vec::new();
        r.push(LSPServerType::RustAnalyzer);
        r.push(LSPServerType::GoPls);
        r.push(LSPServerType::Pyright);
        r.push(LSPServerType::TypeScriptLanguageServer);
        r.push(LSPServerType::Clangd);
        assert(r@ =~= all_servers());
        r
    }
}

// ============================================================================
// Binary resolution
// ============================================================================

/// The program a server's command runs: an installed executable, or a name
/// looked up on `PATH`.
#[derive(Debug, Clone, PartialEq, Eq)]
pub enum LspProgram {
    Installed(PathBuf),
    OnPath(&'static str),
}

/// The process that starts a language server: the program and its
/// arguments.
#[derive(Debug, Clone, PartialEq, Eq)]
pub struct LspCommand {
    pub program: LspProgram,
    pub args: Vec<String>,
}

impl LSPServerType {
    /// The command that starts this server. A custom installation runs its
    /// executable with its own leading arguments and then the server's;
    /// otherwise the binary is run from `PATH` with the server's arguments.
    pub fn create_command(&self, custom_config: Option<CustomBinaryConfig>) -> (r: LspCommand)
        ensures
            match custom_config {
                Some(c) => r.program == LspProgram::Installed(c.binary_path) && strs(r.args@)
                    == strs(c.prepend_args@) + flags_of(*self),
                None => r.program matches LspProgram::OnPath(n) && n@ == binary_name_of(*self)
                    && strs(r.args@) == flags_of(*self),
            },
    {
        let (program, mut args, extra) = match custom_config {
            Some(config) => {
                let CustomBinaryConfig { binary_path, prepend_args } = config;
                (LspProgram::Installed(binary_path), prepend_args, self.custom_install_args())
            },
            None => (LspProgram::OnPath(self.binary_name()), Vec::new(), self.args()),
        };
        let ghost start = strs(args@);
        let mut i: usize = 0;
        while i < extra.len()
            invariant
                i <= extra.len(),
                str_views(extra@) == flags_of(*self),
                strs(args@) == start + str_views(extra@).take(i as int),
            decreases extra.len() - i,
        {
            let a = extra[i].to_owned();
            let ghost before = strs(args@);
            args.push(a);
            assert(strs(args@) =~= before.push(extra@[i as int]@));
            i += 1;
            assert(str_views(extra@).take(i as int) =~= str_views(extra@).take(i - 1).push(
                extra@[i - 1]@,
            ));
        }
        assert(str_views(extra@).take(extra.len() as int) =~= str_views(extra@));
        proof {
            if custom_config is None {
                assert(start =~= Seq::<Seq<char>>::empty());
            }
        }
        LspCommand { program, args }
    }
}

/// A custom installation of a server's binary: the executable, and the
/// arguments that go before the server's own (such as the script that a
/// Node.js-based server runs).
#[derive(Debug, Clone, PartialEq, Eq)]
pub struct CustomBinaryConfig {
    pub binary_path: PathBuf,
    pub prepend_args: Vec<String>,
}

#[derive(Debug, Clone, Copy, PartialEq, Eq, Structural)]
pub enum LspBinarySource {
    Custom,
    WorkspaceLocal,
    Managed,
    Path,
}

#[derive(Debug, Clone, PartialEq, Eq)]
pub struct ResolvedLspBinaryConfig {
    pub source: LspBinarySource,
    pub custom_config: Option<CustomBinaryConfig>,
}

/// No installation of a server's binary could be found.
#[derive(Debug, Clone, PartialEq, Eq)]
pub struct LspBinaryError {
    pub message: String,
}

impl LspBinaryError {
    /// The message, telling the user how to install the server.
    pub fn to_string(&self) -> (r: String)
        ensures
            r@ == self.message@,
    {
        self.message.clone()
    }
}

pub open spec fn ts_missing_message() -> Seq<char> {
    "typescript-language-server is not available. Install/repair TypeScript language server from Codebase Indexing settings, or add typescript and typescript-language-server to this workspace so node_modules/.bin/typescript-language-server exists. A global install is not required."@
}

pub open spec fn missing_suffix() -> Seq<char> {
    " is not available. Install or repair the language server from Codebase Indexing settings, or add it to this workspace. A global install is not required."@
}

pub open spec fn missing_message(t: LSPServerType) -> Seq<char> {
    if t == LSPServerType::TypeScriptLanguageServer {
        ts_missing_message()
    } else {
        binary_name_of(t) + missing_suffix()
    }
}

/// What to tell the user when no binary of the server can be found.
pub fn actionable_missing_binary_message(server_type: LSPServerType) -> (r: String)
    ensures
        r@ == missing_message(server_type),
{
    match server_type {
        LSPServerType::TypeScriptLanguageServer => {
            let v = chars_of(
                "typescript-language-server is not available. Install/repair TypeScript language server from Codebase Indexing settings, or add typescript and typescript-language-server to this workspace so node_modules/.bin/typescript-language-server exists. A global install is not required.",
            );
            string_of(&v)
        },
        _ => {
            let mut v = chars_of(server_type.binary_name());
            let s = chars_of(
                " is not available. Install or repair the language server from Codebase Indexing settings, or add it to this workspace. A global install is not required.",
            );
            crate::text::append(&mut v, &s);
            string_of(&v)
        },
    }
}

/// The installation that is used: a custom one, else one local to the
/// workspace, else a managed one, else the binary on `PATH` when it works.
pub open spec fn resolution(
    custom: Option<CustomBinaryConfig>,
    workspace_local: Option<CustomBinaryConfig>,
    managed: Option<CustomBinaryConfig>,
    on_path: bool,
) -> Option<ResolvedLspBinaryConfig> {
    if custom is Some {
        Some(ResolvedLspBinaryConfig { source: LspBinarySource::Custom, custom_config: custom })
    } else if workspace_local is Some {
        Some(
            ResolvedLspBinaryConfig {
                source: LspBinarySource::WorkspaceLocal,
                custom_config: workspace_local,
            },
        )
    } else if managed is Some {
        Some(ResolvedLspBinaryConfig { source: LspBinarySource::Managed, custom_config: managed })
    } else if on_path {
        Some(ResolvedLspBinaryConfig { source: LspBinarySource::Path, custom_config: None })
    } else {
        None
    }
}

/// Picks the installation of the server's binary to run; fails with the
/// actionable message when there is none.
pub fn resolve_lsp_binary_config(
    server_type: LSPServerType,
    custom_config: Option<CustomBinaryConfig>,
    workspace_local_config: Option<CustomBinaryConfig>,
    managed_config: Option<CustomBinaryConfig>,
    is_working_on_path: bool,
) -> (r: Result<ResolvedLspBinaryConfig, LspBinaryError>)
    ensures
        match resolution(custom_config, workspace_local_config, managed_config, is_working_on_path) {
            Some(c) => r == Ok::<ResolvedLspBinaryConfig, LspBinaryError>(c),
            None => r matches Err(e) && e.message@ == missing_message(server_type),
        },
{
    if custom_config.is_some() {
        return Ok(ResolvedLspBinaryConfig { source: LspBinarySource::Custom, custom_config });
    }
    if workspace_local_config.is_some() {
        return Ok(
            ResolvedLspBinaryConfig {
                source: LspBinarySource::WorkspaceLocal,
                custom_config: workspace_local_config,
            },
        );
    }
    if managed_config.is_some() {
        return Ok(
            ResolvedLspBinaryConfig { source: LspBinarySource::Managed, custom_config: managed_config },
        );
    }
    if is_working_on_path {
        return Ok(ResolvedLspBinaryConfig { source: LspBinarySource::Path, custom_config: None });
    }
    Err(LspBinaryError { message: actionable_missing_binary_message(server_type) })
}


/// The Node-based servers, Pyright and the TypeScript language server, are
/// started with exactly `--stdio`, whether found on the path or in a custom
/// installation; rust-analyzer, gopls and clangd get no argument of their
/// own.
pub proof fn law_node_servers_use_stdio(t: LSPServerType)
    ensures
        (t == LSPServerType::Pyright || t == LSPServerType::TypeScriptLanguageServer) ==> flags_of(t)
            == seq!["--stdio"@],
        (t == LSPServerType::RustAnalyzer || t == LSPServerType::GoPls || t == LSPServerType::Clangd)
            ==> flags_of(t) == Seq::<Seq<char>>::empty(),
{
    reveal_strlit("--stdio");
    assert("--stdio"@ =~= stdio());
}

/// Each server is looked up on the path under its own command name:
/// `rust-analyzer`, `gopls`, `pyright-langserver`,
/// `typescript-language-server` and `clangd`.
pub proof fn law_binary_names()
    ensures
        binary_name_of(LSPServerType::RustAnalyzer) == "rust-analyzer"@,
        binary_name_of(LSPServerType::GoPls) == "gopls"@,
        binary_name_of(LSPServerType::Pyright) == "pyright-langserver"@,
        binary_name_of(LSPServerType::TypeScriptLanguageServer) == "typescript-language-server"@,
        binary_name_of(LSPServerType::Clangd) == "clangd"@,
{
    reveal_strlit("rust-analyzer");
    reveal_strlit("gopls");
    reveal_strlit("pyright-langserver");
    reveal_strlit("typescript-language-server");
    reveal_strlit("clangd");
}

} // verus!
