//! Package configuration model and its structural validation.
//!
//! The structs mirror the YAML schema field by field. Paths are kept as
//! strings; the extra `deb.fields` control entries are an ordered list of
//! `(key, value)` pairs.
use vstd::prelude::*;

use crate::deps::is_name_char;
use crate::text::{chars_of, extend_chars, extend_str, framed, is_ws, is_ws_exec, lit, str_eq, string_from_chars};
use crate::types::{is_digit, parse_size, parse_size_result, parse_u64, size_res_view, u64_from_str};

verus! {

/// Top-level spm configuration.
#[derive(Debug, Clone)]
pub struct Config {
    /// Package metadata (name, version, arch, etc.).
    pub package: PackageConfig,
    /// Content mappings (files, symlinks, directories, alternatives).
    pub content: ContentConfig,
    /// Optional install/remove scripts.
    pub scripts: ScriptsConfig,
    /// Compression settings.
    pub compression: CompressionConfig,
    /// Auto-splitting settings.
    pub splitting: SplittingConfig,
    /// PGP signing configuration.
    pub signing: Option<SigningConfig>,
    /// RPM-specific overrides.
    pub rpm: Option<RpmOverrides>,
    /// DEB-specific overrides.
    pub deb: Option<DebOverrides>,
    /// Build reproducibility settings.
    pub build: Option<BuildConfig>,
}

/// Package identity and metadata.
#[derive(Debug, Clone)]
pub struct PackageConfig {
    /// Package name (e.g. "matlab").
    pub name: String,
    /// Package version (e.g. "2025a").
    pub version: String,
    /// Release number (default "1").
    pub release: String,
    /// Target architecture (e.g. "x86_64", "aarch64", "noarch").
    pub arch: String,
    /// License identifier.
    pub license: String,
    /// Package maintainer (name and email).
    pub maintainer: String,
    /// Short package description.
    pub description: String,
    /// Project URL.
    pub url: Option<String>,
    /// Vendor name.
    pub vendor: Option<String>,
    /// Package dependency declarations.
    pub dependencies: DependencyConfig,
}

/// Package dependency declarations (common + format-specific).
#[derive(Debug, Clone)]
pub struct DependencyConfig {
    /// Common requires (translated per format).
    pub requires: Vec<String>,
    /// RPM-specific requires.
    pub requires_rpm: Vec<String>,
    /// DEB-specific requires.
    pub requires_deb: Vec<String>,
    /// Packages this conflicts with.
    pub conflicts: Vec<String>,
    /// Virtual packages this provides.
    pub provides: Vec<String>,
    /// Packages this replaces.
    pub replaces: Vec<String>,
}

impl Default for DependencyConfig {
    fn default() -> (d: Self)
        ensures
            d.requires@.len() == 0,
            d.requires_rpm@.len() == 0,
            d.requires_deb@.len() == 0,
            d.conflicts@.len() == 0,
            d.provides@.len() == 0,
            d.replaces@.len() == 0,
    {
        DependencyConfig {
            requires: Vec::new(),
            requires_rpm: Vec::new(),
            requires_deb: Vec::new(),
            conflicts: Vec::new(),
            provides: Vec::new(),
            replaces: Vec::new(),
        }
    }
}

/// Content mapping: file rules, symlinks, directories, alternatives.
#[derive(Debug, Clone)]
pub struct ContentConfig {
    /// Global defaults applied to all files unless overridden per-mapping.
    pub defaults: ContentDefaults,
    /// File mapping rules (glob patterns, destinations, overrides).
    pub files: Vec<FileMapping>,
    /// Static symlinks to create in the package.
    pub symlinks: Vec<SymlinkMapping>,
    /// Directories to create with specific ownership/mode.
    pub directories: Vec<DirectoryMapping>,
    /// update-alternatives integration entries.
    pub alternatives: Vec<AlternativeConfig>,
}

/// Global defaults applied to all files unless overridden per-mapping.
#[derive(Debug, Clone)]
pub struct ContentDefaults {
    /// Default owner for all entries.
    pub user: String,
    /// Default group for all entries.
    pub group: String,
    /// Default mode for regular files (e.g. "0644"). If None, preserve from source.
    pub file_mode: Option<String>,
    /// Default mode for directories (e.g. "0755"). If None, preserve from source.
    pub dir_mode: Option<String>,
}

impl Default for ContentDefaults {
    fn default() -> (d: Self)
        ensures
            d.user@ == "root"@,
            d.group@ == "root"@,
            d.file_mode is None,
            d.dir_mode is None,
    {
        ContentDefaults {
            user: String::from_str("root"),
            group: String::from_str("root"),
            file_mode: None,
            dir_mode: None,
        }
    }
}

/// A single file mapping rule (source glob/path to destination).
#[derive(Debug, Clone)]
pub struct FileMapping {
    /// Source path or glob pattern.
    pub src: String,
    /// Destination path inside the package.
    pub dst: String,
    /// Optional file mode override (applies to regular files matched).
    pub mode: Option<String>,
    /// Optional directory mode override (applies to directories matched).
    pub dir_mode: Option<String>,
    /// Optional owner override.
    pub user: Option<String>,
    /// Optional group override.
    pub group: Option<String>,
    /// File type marker (e.g. "config" for noreplace/conffile).
    pub file_type: Option<String>,
}

/// A static symlink to include in the package.
#[derive(Debug, Clone)]
pub struct SymlinkMapping {
    /// Symlink target (what the symlink points to).
    pub src: String,
    /// Symlink path (where it is created).
    pub dst: String,
}

/// A directory to create with specific ownership/permissions.
#[derive(Debug, Clone)]
pub struct DirectoryMapping {
    /// Directory path.
    pub path: String,
    /// Optional mode override.
    pub mode: Option<String>,
    /// Optional owner override.
    pub user: Option<String>,
    /// Optional group override.
    pub group: Option<String>,
}

/// An update-alternatives entry for declarative alternatives management.
#[derive(Debug, Clone)]
pub struct AlternativeConfig {
    /// Alternatives group name (e.g. "matlab").
    pub name: String,
    /// Generic symlink path managed by alternatives (e.g. /usr/bin/matlab).
    pub link: String,
    /// This package's real binary path.
    pub path: String,
    /// Priority (higher = preferred).
    pub priority: i32,
    /// Secondary links that switch together with the primary.
    pub followers: Vec<AlternativeFollower>,
}

/// A follower (secondary) link in an alternatives group.
#[derive(Debug, Clone)]
pub struct AlternativeFollower {
    /// Follower alternative name.
    pub name: String,
    /// Follower symlink path.
    pub link: String,
    /// Follower real path.
    pub path: String,
}

/// Install/remove script paths.
#[derive(Debug, Clone)]
pub struct ScriptsConfig {
    /// Pre-install script.
    pub pre_install: Option<String>,
    /// Post-install script.
    pub post_install: Option<String>,
    /// Pre-remove script.
    pub pre_remove: Option<String>,
    /// Post-remove script.
    pub post_remove: Option<String>,
    /// Pre-transaction script (RPM only).
    pub pre_trans: Option<String>,
    /// Post-transaction script (RPM only).
    pub post_trans: Option<String>,
}

impl Default for ScriptsConfig {
    fn default() -> (d: Self)
        ensures
            d.pre_install is None,
            d.post_install is None,
            d.pre_remove is None,
            d.post_remove is None,
            d.pre_trans is None,
            d.post_trans is None,
    {
        ScriptsConfig {
            pre_install: None,
            post_install: None,
            pre_remove: None,
            post_remove: None,
            pre_trans: None,
            post_trans: None,
        }
    }
}

/// Compression configuration.
#[derive(Debug, Clone)]
pub struct CompressionConfig {
    /// Compression algorithm: "zstd", "xz", "gzip", "none".
    pub algorithm: String,
    /// Algorithm-specific compression level.
    pub level: Option<i32>,
    /// Thread count (0 = auto-detect).
    pub threads: Option<usize>,
}

impl Default for CompressionConfig {
    fn default() -> (d: Self)
        ensures
            d.algorithm@ == "zstd"@,
            d.level is None,
            d.threads is None,
    {
        CompressionConfig { algorithm: String::from_str("zstd"), level: None, threads: None }
    }
}

/// Auto-splitting configuration.
#[derive(Debug, Clone)]
pub struct SplittingConfig {
    /// Whether auto-splitting is enabled.
    pub enabled: bool,
    /// Split strategy: "auto", "size", "directory".
    pub strategy: String,
    /// Maximum size per sub-package (for strategy "size"), e.g. "8GiB".
    pub max_size: Option<String>,
    /// Explicit split parts (for strategy "directory").
    pub parts: Vec<SplitPart>,
}

impl Default for SplittingConfig {
    fn default() -> (d: Self)
        ensures
            d.enabled,
            d.strategy@ == "auto"@,
            d.max_size is None,
            d.parts@.len() == 0,
    {
        SplittingConfig {
            enabled: true,
            strategy: String::from_str("auto"),
            max_size: None,
            parts: Vec::new(),
        }
    }
}

/// A named split part for directory-based splitting.
#[derive(Debug, Clone)]
pub struct SplitPart {
    /// Sub-package name suffix (e.g. "core", "toolboxes").
    pub name: String,
    /// Directory paths assigned to this part.
    pub paths: Vec<String>,
}

/// PGP signing configuration.
#[derive(Debug, Clone)]
pub struct SigningConfig {
    /// Path to the PGP key file (supports `${VAR}` expansion).
    pub key_file: String,
    /// Optional specific subkey ID.
    pub key_id: Option<String>,
}

/// RPM-specific overrides.
#[derive(Debug, Clone)]
pub struct RpmOverrides {
    /// RPM group tag.
    pub group: Option<String>,
    /// Payload format: "cpio" or "cpio-extended".
    pub payload_format: Option<String>,
    /// Override compression for RPM specifically.
    pub compression: Option<String>,
}

/// DEB-specific overrides.
#[derive(Debug, Clone)]
pub struct DebOverrides {
    /// Debian section (e.g. "science").
    pub section: Option<String>,
    /// Debian priority (e.g. "optional").
    pub priority: Option<String>,
    /// Additional control file fields, as `(key, value)` pairs with distinct keys.
    pub fields: Vec<(String, String)>,
    /// Override compression for DEB specifically.
    pub compression: Option<String>,
}

/// No key occurs twice among the pairs (the fields form a map).
pub open spec fn distinct_keys(fs: Seq<(String, String)>) -> bool {
    forall|i: int, j: int| 0 <= i < j < fs.len() ==> #[trigger] fs[i].0@ != #[trigger] fs[j].0@
}

/// The extra control fields of the DEB overrides, if any, have distinct keys.
pub open spec fn deb_fields_distinct(deb: Option<DebOverrides>) -> bool {
    match deb {
        Some(d) => distinct_keys(d.fields@),
        None => true,
    }
}

/// Build reproducibility settings.
#[derive(Debug, Clone)]
pub struct BuildConfig {
    /// Fixed timestamp for reproducible builds.
    pub source_date_epoch: Option<String>,
}

/// Errors that can occur when loading or validating a config file.
#[derive(Debug)]
pub enum ConfigError {
    /// The config file was not found at the specified path.
    NotFound(String),
    /// The YAML content could not be parsed (the parser's message).
    ParseError(String),
    /// The config failed semantic validation.
    Validation(String),
    /// An environment variable referenced in the config is not set.
    EnvVar(String),
    /// An I/O error occurred while reading the config file.
    Io { path: String, source: std::io::Error },
}

/// The architectures a package may target.
pub open spec fn is_known_arch(a: Seq<char>) -> bool {
    a == "x86_64"@ || a == "aarch64"@ || a == "i686"@ || a == "armv7hl"@ || a == "noarch"@
        || a == "all"@
}

/// The compression names a configuration may use.
pub open spec fn is_known_algorithm(a: Seq<char>) -> bool {
    a == "zstd"@ || a == "xz"@ || a == "gzip"@ || a == "none"@
}

/// The splitting strategies a configuration may use.
pub open spec fn is_known_strategy(a: Seq<char>) -> bool {
    a == "auto"@ || a == "size"@ || a == "directory"@
}

/// Whether every character of `s` may appear in a package name.
pub open spec fn all_name_chars(s: Seq<char>) -> bool {
    forall|i: int| 0 <= i < s.len() ==> is_name_char(#[trigger] s[i])
}

/// Whether `s` holds whitespace or a colon.
pub open spec fn has_space_or_colon(s: Seq<char>) -> bool {
    exists|i: int| 0 <= i < s.len() && (is_ws(#[trigger] s[i]) || s[i] == ':')
}

/// Outcome of the checks on `splitting.max_size`, when it is given.
pub open spec fn max_size_check(m: Seq<char>) -> Result<(), Seq<char>> {
    match parse_size_result(m) {
        Err(reason) => Err("splitting.max_size '"@ + m + "' is invalid: "@ + reason),
        Ok(v) => if v == 0 {
            Err("splitting.max_size must be greater than 0"@)
        } else {
            Ok(())
        },
    }
}

/// Outcome of the structural validation of a configuration: the first rule
/// that fails, with its message.
pub open spec fn config_check(c: Config) -> Result<(), Seq<char>> {
    let name = c.package.name@;
    let ver = c.package.version@;
    let arch = c.package.arch@;
    let algo = c.compression.algorithm@;
    let strat = c.splitting.strategy@;
    if name.len() == 0 {
        Err("package.name is required"@)
    } else if !all_name_chars(name) {
        Err("package.name '"@ + name
            + "' contains invalid characters; only alphanumeric, hyphens, dots, underscores, and plus signs are allowed"@)
    } else if ver.len() == 0 {
        Err("package.version is required"@)
    } else if !is_digit(ver[0]) {
        Err("package.version '"@ + ver + "' must start with a digit"@)
    } else if has_space_or_colon(ver) {
        Err("package.version '"@ + ver
            + "' contains invalid characters (no spaces or colons allowed)"@)
    } else if !is_known_arch(arch) {
        Err("unsupported arch '"@ + arch
            + "', expected one of: x86_64, aarch64, i686, armv7hl, noarch, all"@)
    } else if !is_known_algorithm(algo) {
        Err("unsupported compression '"@ + algo + "', expected one of: zstd, xz, gzip, none"@)
    } else if !is_known_strategy(strat) {
        Err("unsupported splitting strategy '"@ + strat + "'"@)
    } else if strat == "size"@ && c.splitting.max_size is None {
        Err("splitting.max_size is required when strategy is 'size'"@)
    } else if strat == "directory"@ && c.splitting.parts@.len() == 0 {
        Err("splitting.parts must be non-empty when strategy is 'directory'"@)
    } else {
        match c.splitting.max_size {
            None => Ok(()),
            Some(m) => max_size_check(m@),
        }
    }
}

/// The view of a validation outcome: `Ok`, or the validation message.
pub open spec fn validation_view(r: Result<(), ConfigError>) -> Result<(), Seq<char>> {
    match r {
        Ok(_) => Ok(()),
        Err(ConfigError::Validation(m)) => Err(m@),
        Err(_) => Err(seq!['\u{0}']),
    }
}

fn validation_error(m: String) -> (r: Result<(), ConfigError>)
    ensures
        validation_view(r) == Err::<(), Seq<char>>(m@),
        r matches Err(ConfigError::Validation(_)),
{
    Err(ConfigError::Validation(m))
}

fn all_name_chars_exec(s: &Vec<char>) -> (r: bool)
    ensures
        r == all_name_chars(s@),
{
    let mut i: usize = 0;
    while i < s.len()
        invariant
            i <= s.len(),
            forall|j: int| 0 <= j < i ==> is_name_char(#[trigger] s@[j]),
        decreases s.len() - i,
    {
        let c = s[i];
        let u = c as u32;
        let ok = (48 <= u && u <= 57) || (65 <= u && u <= 90) || (97 <= u && u <= 122) || c == '-'
            || c == '.' || c == '_' || c == '+';
        if !ok {
            assert(!is_name_char(s@[i as int]));
            return false;
        }
        i += 1;
    }
    true
}

fn has_space_or_colon_exec(s: &Vec<char>) -> (r: bool)
    ensures
        r == has_space_or_colon(s@),
{
    let mut i: usize = 0;
    while i < s.len()
        invariant
            i <= s.len(),
            forall|j: int| 0 <= j < i ==> !(is_ws(#[trigger] s@[j]) || s@[j] == ':'),
        decreases s.len() - i,
    {
        if is_ws_exec(s[i]) || s[i] == ':' {
            assert(is_ws(s@[i as int]) || s@[i as int] == ':');
            return true;
        }
        i += 1;
    }
    false
}

fn quoted_error(a: &str, x: &String, b: &str) -> (r: Result<(), ConfigError>)
    ensures
        validation_view(r) == Err::<(), Seq<char>>(a@ + x@ + b@),
        r matches Err(ConfigError::Validation(_)),
{
    let xs = chars_of(x.as_str());
    validation_error(framed(a, &xs, b))
}

impl Config {
    /// Validate config after parsing.
    pub fn validate(&self) -> (r: Result<(), ConfigError>)
        ensures
            validation_view(r) == config_check(*self),
            r is Ok || r matches Err(ConfigError::Validation(_)),
    {
        let name = chars_of(self.package.name.as_str());
        let ver = chars_of(self.package.version.as_str());
        if name.len() == 0 {
            return validation_error(lit("package.name is required"));
        }
        if !all_name_chars_exec(&name) {
            return quoted_error(
                "package.name '",
                &self.package.name,
                "' contains invalid characters; only alphanumeric, hyphens, dots, underscores, and plus signs are allowed",
            );
        }
        if ver.len() == 0 {
            return validation_error(lit("package.version is required"));
        }
        let v0 = ver[0] as u32;
        if !(48 <= v0 && v0 <= 57) {
            return quoted_error("package.version '", &self.package.version, "' must start with a digit");
        }
        if has_space_or_colon_exec(&ver) {
            return quoted_error(
                "package.version '",
                &self.package.version,
                "' contains invalid characters (no spaces or colons allowed)",
            );
        }
        let arch = self.package.arch.as_str();
        if !(str_eq(arch, "x86_64") || str_eq(arch, "aarch64") || str_eq(arch, "i686") || str_eq(
            arch,
            "armv7hl",
        ) || str_eq(arch, "noarch") || str_eq(arch, "all")) {
            return quoted_error(
                "unsupported arch '",
                &self.package.arch,
                "', expected one of: x86_64, aarch64, i686, armv7hl, noarch, all",
            );
        }
        let algo = self.compression.algorithm.as_str();
        if !(str_eq(algo, "zstd") || str_eq(algo, "xz") || str_eq(algo, "gzip") || str_eq(algo, "none")) {
            return quoted_error(
                "unsupported compression '",
                &self.compression.algorithm,
                "', expected one of: zstd, xz, gzip, none",
            );
        }
        let strat = self.splitting.strategy.as_str();
        let is_size = str_eq(strat, "size");
        let is_dir = str_eq(strat, "directory");
        if !(str_eq(strat, "auto") || is_size || is_dir) {
            return quoted_error("unsupported splitting strategy '", &self.splitting.strategy, "'");
        }
        if is_size && self.splitting.max_size.is_none() {
            return validation_error(lit("splitting.max_size is required when strategy is 'size'"));
        }
        if is_dir && self.splitting.parts.len() == 0 {
            return validation_error(
                lit("splitting.parts must be non-empty when strategy is 'directory'"),
            );
        }
        match &self.splitting.max_size {
            None => Ok(()),
            Some(m) => match parse_size(m.as_str()) {
                Err(reason) => {
                    let mut v: Vec<char> = Vec::new();
                    extend_str(&mut v, "splitting.max_size '");
                    extend_str(&mut v, m.as_str());
                    extend_str(&mut v, "' is invalid: ");
                    extend_str(&mut v, reason.as_str());
                    assert(v@ =~= "splitting.max_size '"@ + m@ + "' is invalid: "@ + reason@);
                    validation_error(string_from_chars(&v))
                },
                Ok(n) => {
                    if n == 0 {
                        validation_error(lit("splitting.max_size must be greater than 0"))
                    } else {
                        Ok(())
                    }
                },
            },
        }
    }
}

/// `dir.join(p)` on Unix paths: an absolute `p` replaces `dir`; otherwise a
/// `/` separates the two unless `dir` is empty or already ends with one.
pub open spec fn join_path(dir: Seq<char>, p: Seq<char>) -> Seq<char> {
    if p.len() > 0 && p[0] == '/' {
        p
    } else if dir.len() == 0 || dir.last() == '/' {
        dir + p
    } else {
        dir + "/"@ + p
    }
}

/// The `(field, resolved path)` entry of one optional script.
pub open spec fn script_entry(field: Seq<char>, p: Option<String>, dir: Seq<char>) -> Seq<
    (Seq<char>, Seq<char>),
> {
    match p {
        None => seq![],
        Some(q) => seq![(field, join_path(dir, q@))],
    }
}

/// The configured scripts, in field order, each with its path resolved
/// against the configuration directory.
pub open spec fn script_entries(s: ScriptsConfig, dir: Seq<char>) -> Seq<(Seq<char>, Seq<char>)> {
    script_entry("scripts.pre_install"@, s.pre_install, dir) + script_entry(
        "scripts.post_install"@,
        s.post_install,
        dir,
    ) + script_entry("scripts.pre_remove"@, s.pre_remove, dir) + script_entry(
        "scripts.post_remove"@,
        s.post_remove,
        dir,
    ) + script_entry("scripts.pre_trans"@, s.pre_trans, dir) + script_entry(
        "scripts.post_trans"@,
        s.post_trans,
        dir,
    )
}

/// The views of `(field, path)` string pairs.
pub open spec fn pairs_view(v: Seq<(String, String)>) -> Seq<(Seq<char>, Seq<char>)> {
    v.map_values(|e: (String, String)| (e.0@, e.1@))
}

/// The index of the first `false` in `v`.
pub open spec fn first_false(v: Seq<bool>) -> Option<int>
    decreases v.len(),
{
    if v.len() == 0 {
        None
    } else if !v[0] {
        Some(0)
    } else {
        match first_false(v.skip(1)) {
            None => None,
            Some(i) => Some(i + 1),
        }
    }
}

/// `"<field>: script file '<path>' does not exist"`.
pub open spec fn missing_script_msg(field: Seq<char>, path: Seq<char>) -> Seq<char> {
    field + ": script file '"@ + path + "' does not exist"@
}

/// Outcome of the script-file check, given for each configured script
/// whether its resolved path exists.
pub open spec fn scripts_check(entries: Seq<(Seq<char>, Seq<char>)>, exists: Seq<bool>) -> Result<
    (),
    Seq<char>,
> {
    match first_false(exists) {
        None => Ok(()),
        Some(i) => Err(missing_script_msg(entries[i].0, entries[i].1)),
    }
}

proof fn lemma_first_false(v: Seq<bool>, i: int)
    requires
        0 <= i <= v.len(),
        forall|j: int| 0 <= j < i ==> #[trigger] v[j],
    ensures
        i == v.len() ==> first_false(v) is None,
        i < v.len() && !v[i] ==> first_false(v) == Some(i),
    decreases v.len(),
{
    if v.len() > 0 && i > 0 {
        lemma_first_false(v.skip(1), i - 1);
        assert forall|j: int| 0 <= j < i - 1 implies #[trigger] v.skip(1)[j] by {
            assert(v[j + 1]);
        }
        lemma_first_false(v.skip(1), i - 1);
    }
}

fn join_path_exec(dir: &str, p: &String) -> (r: String)
    ensures
        r@ == join_path(dir@, p@),
{
    let pc = chars_of(p.as_str());
    if pc.len() > 0 && pc[0] == '/' {
        return string_from_chars(&pc);
    }
    let mut v = chars_of(dir);
    if v.len() == 0 || v[v.len() - 1] == '/' {
        extend_chars(&mut v, &pc);
        assert(v@ == dir@ + p@);
    } else {
        v.push('/');
        extend_chars(&mut v, &pc);
        proof {
            reveal_strlit("/");
        }
        assert(v@ =~= dir@ + "/"@ + p@);
    }
    string_from_chars(&v)
}

fn push_script_entry(out: &mut Vec<(String, String)>, field: &str, p: &Option<String>, dir: &str)
    ensures
        pairs_view(final(out)@) == pairs_view(old(out)@) + script_entry(field@, *p, dir@),
{
    match p {
        None => {
            assert(pairs_view(out@) =~= pairs_view(out@) + script_entry(field@, *p, dir@));
        },
        Some(q) => {
            let ghost before = out@;
            out.push((lit(field), join_path_exec(dir, q)));
            assert(pairs_view(out@) =~= pairs_view(before) + script_entry(field@, *p, dir@));
        },
    }
}

impl Config {
    /// The configured script files, each as `(field name, path)` with its
    /// path resolved against `config_dir`; these are the files whose
    /// existence [`Config::validate_with_dir`] is told of.
    pub fn script_paths(&self, config_dir: &str) -> (r: Vec<(String, String)>)
        ensures
            pairs_view(r@) == script_entries(self.scripts, config_dir@),
    {
        let mut out: Vec<(String, String)> = Vec::new();
        let s = &self.scripts;
        push_script_entry(&mut out, "scripts.pre_install", &s.pre_install, config_dir);
        push_script_entry(&mut out, "scripts.post_install", &s.post_install, config_dir);
        push_script_entry(&mut out, "scripts.pre_remove", &s.pre_remove, config_dir);
        push_script_entry(&mut out, "scripts.post_remove", &s.post_remove, config_dir);
        push_script_entry(&mut out, "scripts.pre_trans", &s.pre_trans, config_dir);
        push_script_entry(&mut out, "scripts.post_trans", &s.post_trans, config_dir);
        assert(pairs_view(out@) =~= script_entries(self.scripts, config_dir@));
        out
    }

    /// Validate the script files: `exists[i]` tells whether the i-th entry
    /// of [`Config::script_paths`] exists on disk. The first missing one is
    /// reported.
    pub fn validate_with_dir(&self, config_dir: &str, exists: &Vec<bool>) -> (r: Result<(), ConfigError>)
        requires
            exists@.len() == script_entries(self.scripts, config_dir@).len(),
        ensures
            validation_view(r) == scripts_check(script_entries(self.scripts, config_dir@), exists@),
            r is Ok || r matches Err(ConfigError::Validation(_)),
    {
        let entries = self.script_paths(config_dir);
        let ghost ev = pairs_view(entries@);
        let mut i: usize = 0;
        while i < exists.len()
            invariant
                i <= exists.len(),
                exists.len() == entries.len(),
                ev == pairs_view(entries@),
                ev == script_entries(self.scripts, config_dir@),
                forall|j: int| 0 <= j < i ==> #[trigger] exists@[j],
            decreases exists.len() - i,
        {
            if !exists[i] {
                proof {
                    lemma_first_false(exists@, i as int);
                }
                let (field, path) = (&entries[i].0, &entries[i].1);
                assert(ev[i as int] == (field@, path@));
                let mut v: Vec<char> = Vec::new();
                extend_str(&mut v, field.as_str());
                extend_str(&mut v, ": script file '");
                extend_str(&mut v, path.as_str());
                extend_str(&mut v, "' does not exist");
                assert(v@ =~= missing_script_msg(field@, path@));
                return validation_error(string_from_chars(&v));
            }
            i += 1;
        }
        proof {
            lemma_first_false(exists@, i as int);
        }
        Ok(())
    }
}

} // verus!

verus! {

/// The configured `SOURCE_DATE_EPOCH`, when it is set and is a number.
pub open spec fn epoch_setting(config: Config) -> Option<u64> {
    match config.build {
        Some(b) => match b.source_date_epoch {
            Some(s) => u64_from_str(s@),
            None => None,
        },
        None => None,
    }
}

/// The configured `SOURCE_DATE_EPOCH`, parsed (none when it is unset or
/// not a number).
pub fn configured_epoch(config: &Config) -> (r: Option<u64>)
    ensures
        r == epoch_setting(*config),
{
    match &config.build {
        Some(b) => match &b.source_date_epoch {
            Some(s) => parse_u64(s.as_str()),
            None => None,
        },
        None => None,
    }
}

/// The views of the `(name, value)` pairs of an environment.
pub open spec fn env_view(env: Seq<(String, String)>) -> Seq<(Seq<char>, Seq<char>)> {
    env.map_values(|p: (String, String)| (p.0@, p.1@))
}

/// The value of the first pair of `env` named `name`, if any.
pub open spec fn env_value(env: Seq<(Seq<char>, Seq<char>)>, name: Seq<char>) -> Option<Seq<char>>
    decreases env.len(),
{
    if env.len() == 0 {
        None
    } else if env[0].0 == name {
        Some(env[0].1)
    } else {
        env_value(env.drop_first(), name)
    }
}

/// Look up a variable in an environment given as `(name, value)` pairs.
pub fn env_lookup(env: &Vec<(String, String)>, name: &str) -> (r: Option<String>)
    ensures
        r matches Some(v) ==> env_value(env_view(env@), name@) == Some(v@),
        r is None ==> env_value(env_view(env@), name@) is None,
{
    let ghost ev = env_view(env@);
    assert(ev.skip(0) =~= ev);
    let mut i: usize = 0;
    while i < env.len()
        invariant
            i <= env.len(),
            ev == env_view(env@),
            env_value(ev, name@) == env_value(ev.skip(i as int), name@),
        decreases env.len() - i,
    {
        assert(ev.skip(i as int)[0] == ev[i as int]);
        assert(ev.skip(i as int).drop_first() =~= ev.skip(i + 1));
        if str_eq(env[i].0.as_str(), name) {
            return Some(env[i].1.clone());
        }
        i += 1;
    }
    None
}

/// The configuration text with its `$VAR` and `${VAR}` references expanded
/// from `env`, unknown variables kept as written.
pub uninterp spec fn env_expanded(raw: Seq<char>, env: Seq<(Seq<char>, Seq<char>)>) -> Seq<char>;

/// `shellexpand::env_with_context_no_errors` on `raw`, looking variables up
/// in `env` with [`env_lookup`].
#[verifier::external_body]
fn expand_env_refs(raw: &str, env: &Vec<(String, String)>) -> (r: String)
    ensures
        r@ == env_expanded(raw@, env_view(env@)),
{
    shellexpand::env_with_context_no_errors(raw, |name: &str| env_lookup(env, name)).into_owned()
}

/// Expand the environment references of a configuration file's text before
/// it is parsed; `env` holds the process environment as `(name, value)`
/// pairs (those that are valid Unicode).
pub fn expand_config_text(raw: &str, env: &Vec<(String, String)>) -> (r: String)
    ensures
        r@ == env_expanded(raw@, env_view(env@)),
{
    expand_env_refs(raw, env)
}

/// Whether no key occurs twice among the pairs (see [`distinct_keys`]).
pub fn fields_have_distinct_keys(fields: &Vec<(String, String)>) -> (r: bool)
    ensures
        r == distinct_keys(fields@),
{
    let mut j: usize = 0;
    while j < fields.len()
        invariant
            j <= fields.len(),
            forall|a: int, b: int| 0 <= a < b < j ==> #[trigger] fields@[a].0@ != #[trigger] fields@[b].0@,
        decreases fields.len() - j,
    {
        let mut i: usize = 0;
        while i < j
            invariant
                i <= j < fields.len(),
                forall|a: int, b: int| 0 <= a < b < j ==> #[trigger] fields@[a].0@ != #[trigger] fields@[b].0@,
                forall|a: int| 0 <= a < i ==> #[trigger] fields@[a].0@ != fields@[j as int].0@,
            decreases j - i,
        {
            if str_eq(fields[i].0.as_str(), fields[j].0.as_str()) {
                return false;
            }
            i += 1;
        }
        j += 1;
    }
    true
}

} // verus!
