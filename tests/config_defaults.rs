use ubuntu_setup_cli::config::{
    default_alacritty_theme, default_auto_yes, default_font_family, default_skip_installed,
    default_tmux_plugins, default_verbose, default_zed_extensions, default_zed_theme,
    default_zsh_plugins, TmuxConfig, ZedConfig, ZshConfig,
};

#[test]
fn scalar_defaults() {
    assert!(!default_verbose());
    assert!(!default_auto_yes());
    assert!(default_skip_installed());
    assert_eq!(default_font_family(), "JetBrains Mono");
    assert_eq!(default_alacritty_theme(), "one_dark");
    assert_eq!(default_zed_theme(), "one_dark");
}

#[test]
fn list_defaults() {
    assert_eq!(
        default_zsh_plugins(),
        vec!["git", "zsh-autosuggestions", "zsh-syntax-highlighting"]
    );
    assert_eq!(default_tmux_plugins().len(), 4);
    assert_eq!(default_tmux_plugins()[0], "tmux-plugins/tpm");
    assert_eq!(default_zed_extensions(), vec!["rust-analyzer", "prettier", "python-lsp"]);
}

#[test]
fn section_defaults() {
    let z = ZshConfig::default();
    assert!(z.set_as_default);
    assert_eq!(z.plugins.len(), 3);
    let t = TmuxConfig::default();
    assert!(t.use_custom_config && t.install_tpm);
    assert_eq!(t.plugins[3], "tmux-plugins/tmux-continuum");
    let e = ZedConfig::default();
    assert_eq!(e.theme, "one_dark");
    assert_eq!(e.extensions[1], "prettier");
}
