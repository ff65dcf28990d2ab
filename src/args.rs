//! Command-line options: which files under which root the session works on.

use vstd::prelude::*;
use vstd::string::StringSliceAdditionalSpecFns;
use vstd::utf8::{encode_utf8, valid_utf8};

verus! {

#[verifier::external_type_specification]
#[verifier::external_body]
pub struct ExArguments(pico_args::Arguments);

#[verifier::external_type_specification]
#[verifier::external_body]
pub struct ExArgsError(pico_args::Error);

/// Configuration root used when `--root` is not given.
pub const DEFAULT_ROOT: &'static str = "~/.config/alacritty/";

/// Themes subdirectory used when `--themes` is not given.
pub const DEFAULT_THEMES: &'static str = "themes";

/// Base configuration file used when `--base-config` is not given.
pub const DEFAULT_BASE_CONFIG: &'static str = "base.toml";

/// Output configuration file used when `--out-file` is not given.
pub const DEFAULT_OUT_FILE: &'static str = "alacritty.toml";

/// Where the session reads and writes, relative to nothing but the root.
pub struct AppArgs {
    /// The configuration root directory.
    pub root_config: String,
    /// The themes subdirectory, relative to the root.
    pub themes_dir: String,
    /// The base configuration file, relative to the root.
    pub base_config_file: String,
    /// The output configuration file, relative to the root.
    pub out_file: String,
}

/// What the command line asks for.
pub enum Command {
    /// Print the usage text and stop.
    Help,
    /// Run a session on these files.
    Run(AppArgs),
}

/// The value read for an option, where one was read: a missing option and
/// one without a readable value both count as not given.
pub fn given_value(read: Result<String, pico_args::Error>) -> (r: Option<String>)
    ensures
        read matches Ok(v) ==> r matches Some(w) && w@ == v@,
        read is Err ==> r is None,
{
    match read {
        Ok(v) => Some(v),
        Err(_) => None,
    }
}

/// The options, each taken as given or else from its default.
pub fn resolve_args(
    root: Option<String>,
    themes: Option<String>,
    base: Option<String>,
    out: Option<String>,
) -> (r: AppArgs)
    ensures
        r.root_config@ == (if root is Some { root.unwrap()@ } else { DEFAULT_ROOT@ }),
        r.themes_dir@ == (if themes is Some { themes.unwrap()@ } else { DEFAULT_THEMES@ }),
        r.base_config_file@ == (if base is Some { base.unwrap()@ } else { DEFAULT_BASE_CONFIG@ }),
        r.out_file@ == (if out is Some { out.unwrap()@ } else { DEFAULT_OUT_FILE@ }),
{
    AppArgs {
        root_config: match root {
            Some(v) => v,
            None => DEFAULT_ROOT.to_owned(),
        },
        themes_dir: match themes {
            Some(v) => v,
            None => DEFAULT_THEMES.to_owned(),
        },
        base_config_file: match base {
            Some(v) => v,
            None => DEFAULT_BASE_CONFIG.to_owned(),
        },
        out_file: match out {
            Some(v) => v,
            None => DEFAULT_OUT_FILE.to_owned(),
        },
    }
}

/// The arguments that remain in `a`, each as its encoded bytes, in order.
pub uninterp spec fn arguments_of(a: pico_args::Arguments) -> Seq<Seq<u8>>;

/// Position of the first argument equal to `key`, if any is.
pub open spec fn first_index(args: Seq<Seq<u8>>, key: Seq<u8>) -> Option<int>
    decreases args.len(),
{
    if args.len() == 0 {
        None
    } else if args[0] == key {
        Some(0)
    } else {
        match first_index(args.drop_first(), key) {
            Some(i) => Some(i + 1),
            None => None,
        }
    }
}

/// Looks for a flag given as `short` or as `long` (the short form first):
/// whether it was found, and the arguments without that one occurrence.
pub open spec fn take_flag(args: Seq<Seq<u8>>, short: Seq<u8>, long: Seq<u8>) -> (bool, Seq<Seq<u8>>) {
    match first_index(args, short) {
        Some(i) => (true, args.remove(i)),
        None => match first_index(args, long) {
            Some(i) => (true, args.remove(i)),
            None => (false, args),
        },
    }
}

/// Looks for `key` followed by a UTF-8 value: the value, and the arguments
/// without the pair. Where the first `key` is last, or its value is not
/// UTF-8, or there is no `key`, nothing is taken.
pub open spec fn take_value(args: Seq<Seq<u8>>, key: Seq<u8>) -> (Option<Seq<u8>>, Seq<Seq<u8>>) {
    match first_index(args, key) {
        Some(i) => if i + 1 < args.len() && valid_utf8(args[i + 1]) {
            (Some(args[i + 1]), args.remove(i).remove(i))
        } else {
            (None, args)
        },
        None => (None, args),
    }
}

/// `s` is the value read, or `default` where none was.
pub open spec fn value_or_default(s: Seq<char>, read: Option<Seq<u8>>, default: Seq<char>) -> bool {
    match read {
        Some(b) => encode_utf8(s) == b,
        None => s == default,
    }
}

/// Relies on `pico_args::Arguments::contains`: whether `-h` (else `--help`)
/// is among the arguments, removing its first occurrence.
#[verifier::external_body]
fn help_requested(pargs: &mut pico_args::Arguments) -> (r: bool)
    ensures
        (r, arguments_of(*final(pargs))) == take_flag(
            arguments_of(*old(pargs)),
            encode_utf8("-h"@),
            encode_utf8("--help"@),
        ),
{
    pargs.contains(["-h", "--help"])
}

/// Relies on `pico_args::Arguments::value_from_str` for a `String`: the
/// argument that follows the first `key`, removing both, or an error (the
/// arguments left as they were) where there is none or it is not UTF-8.
#[verifier::external_body]
fn option_value(pargs: &mut pico_args::Arguments, key: &'static str) -> (r: Result<String, pico_args::Error>)
    requires
        key@.len() >= 2,
        key@[0] == '-',
        key@[1] == '-',
    ensures
        ({
            let (read, rest) = take_value(arguments_of(*old(pargs)), key.spec_bytes());
            &&& arguments_of(*final(pargs)) == rest
            &&& r is Ok <==> read is Some
            &&& r matches Ok(v) ==> Some(encode_utf8(v@)) == read
        }),
{
    pargs.value_from_str(key)
}

/// Reads the help flag and then the four options, each taken from what the
/// previous ones left: `--root`, `--themes`, `--base-config`, `--out-file`.
/// A missing or unreadable value falls back to the option's default. What was
/// not consumed stays in `pargs`.
pub fn parse_args(pargs: &mut pico_args::Arguments) -> (r: Command)
    ensures
        ({
            let (help, a1) = take_flag(arguments_of(*old(pargs)), encode_utf8("-h"@), encode_utf8("--help"@));
            let (root, a2) = take_value(a1, encode_utf8("--root"@));
            let (themes, a3) = take_value(a2, encode_utf8("--themes"@));
            let (base, a4) = take_value(a3, encode_utf8("--base-config"@));
            let (out, a5) = take_value(a4, encode_utf8("--out-file"@));
            &&& help ==> r is Help && arguments_of(*final(pargs)) == a1
            &&& !help ==> arguments_of(*final(pargs)) == a5
            &&& !help ==> (r matches Command::Run(a) && {
                &&& value_or_default(a.root_config@, root, DEFAULT_ROOT@)
                &&& value_or_default(a.themes_dir@, themes, DEFAULT_THEMES@)
                &&& value_or_default(a.base_config_file@, base, DEFAULT_BASE_CONFIG@)
                &&& value_or_default(a.out_file@, out, DEFAULT_OUT_FILE@)
            })
        }),
{
    if help_requested(pargs) {
        return Command::Help;
    }
    proof {
        reveal_strlit("--root");
        reveal_strlit("--themes");
        reveal_strlit("--base-config");
        reveal_strlit("--out-file");
    }
    let root = given_value(option_value(pargs, "--root"));
    let themes = given_value(option_value(pargs, "--themes"));
    let base = given_value(option_value(pargs, "--base-config"));
    let out = given_value(option_value(pargs, "--out-file"));
    Command::Run(resolve_args(root, themes, base, out))
}

} // verus!
