//! Settings read from the user's configuration file, and where that file is.
use vstd::prelude::*;
use crate::text::{chars_of, append_str, string_of};
use crate::output::OutputFormatter;

verus! {

/// Output and connection settings; a setting that the file leaves out takes
/// its default.
pub struct Config {
    pub quiet: bool,
    pub no_color: bool,
    pub raw: bool,
    pub timestamps: bool,
    pub color_mode: String,
    pub color_scheme: String,
    pub template_string: String,
    pub kube_config_path: String,
}

/// The color mode when none is configured.
pub fn default_color_mode() -> (s: String)
    ensures
        s@ == "auto"@,
{
    "auto".to_string()
}

/// The color scheme when none is configured.
pub fn default_color_scheme() -> (s: String)
    ensures
        s@ == "modern"@,
{
    "modern".to_string()
}

impl Default for Config {
    /// No flag set, color mode `auto`, scheme `modern`, no template and no
    /// kubeconfig path.
    fn default() -> (c: Self)
        ensures
            !c.quiet && !c.no_color && !c.raw && !c.timestamps,
            c.color_mode@ == "auto"@,
            c.color_scheme@ == "modern"@,
            c.template_string@ == Seq::<char>::empty(),
            c.kube_config_path@ == Seq::<char>::empty(),
    {
        Config {
            quiet: false,
            no_color: false,
            raw: false,
            timestamps: false,
            color_mode: default_color_mode(),
            color_scheme: default_color_scheme(),
            template_string: String::new(),
            kube_config_path: String::new(),
        }
    }
}

/// The configuration file under a home directory: `.config/ktail/config.yml`
/// joined to it, with a `/` between unless the home directory is empty or
/// already ends with one.
pub open spec fn config_file_path_spec(home: Seq<char>) -> Seq<char> {
    if home.len() == 0 || home.last() == '/' {
        home + ".config/ktail/config.yml"@
    } else {
        home + "/"@ + ".config/ktail/config.yml"@
    }
}

/// Where the configuration file lies under the home directory.
pub fn config_file_path(home: &str) -> (p: String)
    ensures
        p@ == config_file_path_spec(home@),
{
    let mut v = chars_of(home);
    let needs_separator = v.len() > 0 && v[v.len() - 1] != '/';
    if needs_separator {
        append_str(&mut v, "/");
    }
    append_str(&mut v, ".config/ktail/config.yml");
    string_of(&v)
}

/// A setting given on the command line, else the file's.
pub open spec fn given_or(cli: Option<String>, file: String) -> Seq<char> {
    match cli {
        Some(s) => s@,
        None => file@,
    }
}

/// The template given on the command line, else the file's unless it is
/// empty.
pub open spec fn template_choice(cli: Option<String>, file: String) -> Option<Seq<char>> {
    match cli {
        Some(t) => Some(t@),
        None => if file@.len() > 0 {
            Some(file@)
        } else {
            None
        },
    }
}

/// The output settings of the command line over those of the file: a flag is
/// on when either sets it; a template, color mode or color scheme given on the
/// command line wins.
pub fn output_settings(
    config: &Config,
    raw: bool,
    timestamps: bool,
    quiet: bool,
    no_color: bool,
    template: Option<String>,
    color_mode: Option<String>,
    color_scheme: Option<String>,
) -> (f: OutputFormatter)
    ensures
        f.raw == (raw || config.raw),
        f.timestamps == (timestamps || config.timestamps),
        f.quiet == (quiet || config.quiet),
        f.no_color == (no_color || config.no_color),
        (match f.template {
            Some(t) => Some(t@),
            None => None::<Seq<char>>,
        }) == template_choice(template, config.template_string),
        f.color_mode@ == given_or(color_mode, config.color_mode),
        f.color_scheme@ == given_or(color_scheme, config.color_scheme),
{
    let template = match template {
        Some(t) => Some(t),
        None => if chars_of(config.template_string.as_str()).len() > 0 {
            Some(config.template_string.clone())
        } else {
            None
        },
    };
    let color_mode = match color_mode {
        Some(m) => m,
        None => config.color_mode.clone(),
    };
    let color_scheme = match color_scheme {
        Some(s) => s,
        None => config.color_scheme.clone(),
    };
    OutputFormatter::new(
        raw || config.raw,
        timestamps || config.timestamps,
        quiet || config.quiet,
        template,
        color_mode,
        color_scheme,
        no_color || config.no_color,
    )
}

} // verus!
