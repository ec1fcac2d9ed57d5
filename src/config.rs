//! Per-component settings and their defaults.

use vstd::prelude::*;
use crate::system::strings_view;

verus! {

pub fn default_verbose() -> (r: bool)
    ensures
        !r,
{
    false
}

pub fn default_auto_yes() -> (r: bool)
    ensures
        !r,
{
    false
}

pub fn default_skip_installed() -> (r: bool)
    ensures
        r,
{
    true
}

pub fn default_true() -> (r: bool)
    ensures
        r,
{
    true
}

pub fn default_font_family() -> (r: String)
    ensures
        r@ == "JetBrains Mono"@,
{
    "JetBrains Mono".to_owned()
}

pub fn default_alacritty_theme() -> (r: String)
    ensures
        r@ == "one_dark"@,
{
    "one_dark".to_owned()
}

pub fn default_zed_theme() -> (r: String)
    ensures
        r@ == "one_dark"@,
{
    "one_dark".to_owned()
}

pub fn default_zsh_plugins() -> (r: Vec<String>)
    ensures
        strings_view(r@) == seq!["git"@, "zsh-autosuggestions"@, "zsh-syntax-highlighting"@],
{
    let mut r: Vec<String> = Vec::new();
    r.push("git".to_owned());
    r.push("zsh-autosuggestions".to_owned());
    r.push("zsh-syntax-highlighting".to_owned());
    assert(strings_view(r@) =~= seq!["git"@, "zsh-autosuggestions"@, "zsh-syntax-highlighting"@]);
    r
}

pub fn default_tmux_plugins() -> (r: Vec<String>)
    ensures
        strings_view(r@) == seq![
            "tmux-plugins/tpm"@,
            "tmux-plugins/tmux-sensible"@,
            "tmux-plugins/tmux-resurrect"@,
            "tmux-plugins/tmux-continuum"@,
        ],
{
    let mut r: Vec<String> = Vec::new();
    r.push("tmux-plugins/tpm".to_owned());
    r.push("tmux-plugins/tmux-sensible".to_owned());
    r.push("tmux-plugins/tmux-resurrect".to_owned());
    r.push("tmux-plugins/tmux-continuum".to_owned());
    assert(strings_view(r@) =~= seq![
        "tmux-plugins/tpm"@,
        "tmux-plugins/tmux-sensible"@,
        "tmux-plugins/tmux-resurrect"@,
        "tmux-plugins/tmux-continuum"@,
    ]);
    r
}

pub fn default_zed_extensions() -> (r: Vec<String>)
    ensures
        strings_view(r@) == seq!["rust-analyzer"@, "prettier"@, "python-lsp"@],
{
    let mut r: Vec<String> = Vec::new();
    r.push("rust-analyzer".to_owned());
    r.push("prettier".to_owned());
    r.push("python-lsp".to_owned());
    assert(strings_view(r@) =~= seq!["rust-analyzer"@, "prettier"@, "python-lsp"@]);
    r
}

/// Shell settings.
#[derive(Clone, Debug)]
pub struct ZshConfig {
    /// Make zsh the login shell.
    pub set_as_default: bool,
    pub plugins: Vec<String>,
}

impl Default for ZshConfig {
    fn default() -> (r: Self)
        ensures
            r.set_as_default,
            strings_view(r.plugins@) == seq![
                "git"@,
                "zsh-autosuggestions"@,
                "zsh-syntax-highlighting"@,
            ],
    {
        ZshConfig { set_as_default: default_true(), plugins: default_zsh_plugins() }
    }
}

/// Terminal multiplexer settings.
#[derive(Clone, Debug)]
pub struct TmuxConfig {
    pub use_custom_config: bool,
    /// Install the plugin manager.
    pub install_tpm: bool,
    pub plugins: Vec<String>,
}

impl Default for TmuxConfig {
    fn default() -> (r: Self)
        ensures
            r.use_custom_config,
            r.install_tpm,
            strings_view(r.plugins@) == seq![
                "tmux-plugins/tpm"@,
                "tmux-plugins/tmux-sensible"@,
                "tmux-plugins/tmux-resurrect"@,
                "tmux-plugins/tmux-continuum"@,
            ],
    {
        TmuxConfig {
            use_custom_config: default_true(),
            install_tpm: default_true(),
            plugins: default_tmux_plugins(),
        }
    }
}

/// Editor settings.
#[derive(Clone, Debug)]
pub struct ZedConfig {
    pub theme: String,
    pub extensions: Vec<String>,
}

impl Default for ZedConfig {
    fn default() -> (r: Self)
        ensures
            r.theme@ == "one_dark"@,
            strings_view(r.extensions@) == seq!["rust-analyzer"@, "prettier"@, "python-lsp"@],
    {
        ZedConfig { theme: default_zed_theme(), extensions: default_zed_extensions() }
    }
}

} // verus!
