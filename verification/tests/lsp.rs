use castcodes::lsp::{resolve_lsp_binary_config, CustomBinaryConfig, LSPServerType, LspBinarySource};
use std::path::PathBuf;

fn config(path: &str) -> CustomBinaryConfig {
    CustomBinaryConfig {
        binary_path: PathBuf::from(path),
        prepend_args: vec![],
    }
}

#[test]
fn custom_configured_binary_wins() {
    let resolved = resolve_lsp_binary_config(
        LSPServerType::TypeScriptLanguageServer,
        Some(config("/custom/typescript-language-server")),
        Some(config(
            "/workspace/node_modules/.bin/typescript-language-server",
        )),
        Some(config("/managed/typescript-language-server")),
        true,
    )
    .unwrap();

    assert_eq!(resolved.source, LspBinarySource::Custom);
    assert_eq!(
        resolved.custom_config.unwrap().binary_path,
        PathBuf::from("/custom/typescript-language-server")
    );
}

#[test]
fn workspace_local_binary_is_found_before_managed_or_path() {
    let resolved = resolve_lsp_binary_config(
        LSPServerType::TypeScriptLanguageServer,
        None,
        Some(config(
            "/workspace/node_modules/.bin/typescript-language-server",
        )),
        Some(config("/managed/typescript-language-server")),
        true,
    )
    .unwrap();

    assert_eq!(resolved.source, LspBinarySource::WorkspaceLocal);
    assert_eq!(
        resolved.custom_config.unwrap().binary_path,
        PathBuf::from("/workspace/node_modules/.bin/typescript-language-server")
    );
}

#[test]
fn managed_castcodes_binary_is_found_before_path() {
    let resolved = resolve_lsp_binary_config(
        LSPServerType::TypeScriptLanguageServer,
        None,
        None,
        Some(config("/managed/typescript-language-server")),
        true,
    )
    .unwrap();

    assert_eq!(resolved.source, LspBinarySource::Managed);
    assert_eq!(
        resolved.custom_config.unwrap().binary_path,
        PathBuf::from("/managed/typescript-language-server")
    );
}

#[test]
fn missing_binary_produces_actionable_error() {
    let error = resolve_lsp_binary_config(
        LSPServerType::TypeScriptLanguageServer,
        None,
        None,
        None,
        false,
    )
    .unwrap_err()
    .to_string();

    assert!(error.contains("Install/repair TypeScript language server"));
    assert!(error.contains("node_modules/.bin/typescript-language-server"));
    assert!(error.contains("global install is not required"));
}
