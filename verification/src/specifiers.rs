//! Resolution of `%x` specifier placeholders.
//!
//! Every lookup a specifier can make — uname fields, os-release fields,
//! user and group identity, environment fallbacks — is captured once per
//! top-level load in an immutable [`SpecifierContext`] snapshot, so that
//! resolution itself is a pure function of the context, the unit filename
//! and the fragment path.  An unrecognized specifier resolves to the empty
//! string; only a malformed filename (more than one `@`) is an error.

use vstd::prelude::*;
use crate::error::Error;
use crate::escape::{escape, escape_spec};
use crate::template::{classify_name, unit_type, UnitClass, UnitType};
use crate::text::{
    before_first_char, chars_of, dec_str, last_index_of, last_segment_after, lemma_last_index_of,
    split_on, string_from_chars, u64_dec_chars,
};

verus! {

// ---------------------------------------------------------------------------
// The call-scoped context snapshot
// ---------------------------------------------------------------------------

/// An immutable snapshot of everything specifier resolution may consult.
///
/// The embedding program fills it once per top-level load from the real
/// system (uname, os-release, user database, environment); tests fill it
/// with stub values.  It is never mutated and never a process-wide global.
pub struct SpecifierContext {
    /// Whether the load runs in root mode (system directories) rather than
    /// user mode (XDG directories).
    pub root: bool,
    /// The machine architecture, as uname reports it.
    pub arch: String,
    /// The full hostname, as uname reports it.
    pub hostname: String,
    /// The kernel release, as uname reports it.
    pub kernel_release: String,
    /// The boot identifier, from `/proc/sys/kernel/random/boot_id`.
    pub boot_id: String,
    /// The machine identifier, from `/etc/machine-id`.
    pub machine_id: String,
    /// os-release `ID`.
    pub os_id: String,
    /// os-release `VERSION_ID`.
    pub os_version_id: String,
    /// os-release `IMAGE_VERSION`, or empty when absent.
    pub os_image_version: String,
    /// os-release `BUILD_ID`, or empty when absent.
    pub os_build_id: String,
    /// os-release `IMAGE_ID`, or empty when absent.
    pub os_image_id: String,
    /// os-release `VARIANT_ID`, or empty when absent.
    pub os_variant_id: String,
    /// The current user id.
    pub uid: u32,
    /// The current group id.
    pub gid: u32,
    /// The current user name, or empty when it cannot be resolved.
    pub user_name: String,
    /// The current group name, or empty when it cannot be resolved.
    pub group_name: String,
    /// `XDG_CACHE_HOME` when set.
    pub cache_home: Option<String>,
    /// `XDG_CONFIG_HOME` when set.
    pub config_home: Option<String>,
    /// `XDG_STATE_HOME` when set.
    pub state_home: Option<String>,
    /// `XDG_RUNTIME_DIR` when set.
    pub runtime_dir: Option<String>,
    /// `CREDENTIALS_DIRECTORY` when set.
    pub credentials_dir: Option<String>,
    /// `HOME` when set.
    pub home: Option<String>,
    /// `SHELL` when set.
    pub shell: Option<String>,
    /// `TMPDIR` when set.
    pub tmpdir: Option<String>,
    /// `TEMP` when set.
    pub temp: Option<String>,
    /// `TMP` when set.
    pub tmp: Option<String>,
}

/// The model of a [`SpecifierContext`].
pub struct ContextModel {
    pub root: bool,
    pub arch: Seq<char>,
    pub hostname: Seq<char>,
    pub kernel_release: Seq<char>,
    pub boot_id: Seq<char>,
    pub machine_id: Seq<char>,
    pub os_id: Seq<char>,
    pub os_version_id: Seq<char>,
    pub os_image_version: Seq<char>,
    pub os_build_id: Seq<char>,
    pub os_image_id: Seq<char>,
    pub os_variant_id: Seq<char>,
    pub uid: u32,
    pub gid: u32,
    pub user_name: Seq<char>,
    pub group_name: Seq<char>,
    pub cache_home: Option<Seq<char>>,
    pub config_home: Option<Seq<char>>,
    pub state_home: Option<Seq<char>>,
    pub runtime_dir: Option<Seq<char>>,
    pub credentials_dir: Option<Seq<char>>,
    pub home: Option<Seq<char>>,
    pub shell: Option<Seq<char>>,
    pub tmpdir: Option<Seq<char>>,
    pub temp: Option<Seq<char>>,
    pub tmp: Option<Seq<char>>,
}

/// The view of an optional string.
pub open spec fn opt_view(o: Option<String>) -> Option<Seq<char>> {
    match o {
        Option::Some(s) => Some(s@),
        Option::None => Option::None,
    }
}

impl View for SpecifierContext {
    type V = ContextModel;

    open spec fn view(&self) -> ContextModel {
        ContextModel {
            root: self.root,
            arch: self.arch@,
            hostname: self.hostname@,
            kernel_release: self.kernel_release@,
            boot_id: self.boot_id@,
            machine_id: self.machine_id@,
            os_id: self.os_id@,
            os_version_id: self.os_version_id@,
            os_image_version: self.os_image_version@,
            os_build_id: self.os_build_id@,
            os_image_id: self.os_image_id@,
            os_variant_id: self.os_variant_id@,
            uid: self.uid,
            gid: self.gid,
            user_name: self.user_name@,
            group_name: self.group_name@,
            cache_home: opt_view(self.cache_home),
            config_home: opt_view(self.config_home),
            state_home: opt_view(self.state_home),
            runtime_dir: opt_view(self.runtime_dir),
            credentials_dir: opt_view(self.credentials_dir),
            home: opt_view(self.home),
            shell: opt_view(self.shell),
            tmpdir: opt_view(self.tmpdir),
            temp: opt_view(self.temp),
            tmp: opt_view(self.tmp),
        }
    }
}

// ---------------------------------------------------------------------------
// Name helpers
// ---------------------------------------------------------------------------

/// The instance name of an instance unit, empty for every other unit.
pub open spec fn instance_of(f: Seq<char>) -> Seq<char> {
    match classify_name(f) {
        UnitClass::Instance { instance_name, .. } => instance_name,
        _ => Seq::<char>::empty(),
    }
}

/// The unit prefix: the template name for an instance, the text before the
/// first dot for every other unit.
pub open spec fn prefix_of(f: Seq<char>) -> Seq<char> {
    match classify_name(f) {
        UnitClass::Instance { template_name, .. } => template_name,
        _ => split_on(f, '.')[0],
    }
}

/// The last hyphen-separated piece of `s`.
pub open spec fn last_segment(s: Seq<char>) -> Seq<char> {
    split_on(s, '-').last()
}

/// The directory part of a path: everything before the last `/`, or empty
/// when the path holds no `/`.
pub open spec fn parent_dir_spec(p: Seq<char>) -> Seq<char> {
    let li = last_index_of(p, '/');
    if li < 0 {
        Seq::<char>::empty()
    } else {
        p.take(li)
    }
}

/// An optional value, or the given fallback.
pub open spec fn env_or(o: Option<Seq<char>>, dflt: Seq<char>) -> Seq<char> {
    match o {
        Option::Some(s) => s,
        Option::None => dflt,
    }
}

/// The `TMPDIR`/`TEMP`/`TMP` chain, with the given final fallback.
pub open spec fn tmp_chain(c: ContextModel, dflt: Seq<char>) -> Seq<char> {
    env_or(c.tmpdir, env_or(c.temp, env_or(c.tmp, dflt)))
}

// ---------------------------------------------------------------------------
// Resolution of one specifier
// ---------------------------------------------------------------------------

/// What the specifier `sp` resolves to, given the context, the unit
/// filename and the fragment path.  `Err` only for a malformed filename on
/// the name-dependent specifiers; unrecognized specifiers resolve to the
/// empty string.
pub open spec fn resolve_model(
    sp: char,
    c: ContextModel,
    filename: Seq<char>,
    path: Seq<char>,
) -> Result<Seq<char>, ()> {
    if sp == 'a' {
        Ok(c.arch)
    } else if sp == 'A' {
        Ok(c.os_image_version)
    } else if sp == 'b' {
        Ok(c.boot_id)
    } else if sp == 'B' {
        Ok(c.os_build_id)
    } else if sp == 'C' {
        Ok(
            if c.root {
                "/var/cache"@
            } else {
                env_or(c.cache_home, "~/.cache"@)
            },
        )
    } else if sp == 'd' {
        Ok(env_or(c.credentials_dir, Seq::<char>::empty()))
    } else if sp == 'E' {
        Ok(
            if c.root {
                "/etc"@
            } else {
                env_or(c.config_home, "~/.config"@)
            },
        )
    } else if sp == 'f' {
        Ok(filename)
    } else if sp == 'g' {
        Ok(
            if c.root {
                "root"@
            } else {
                c.group_name
            },
        )
    } else if sp == 'G' {
        Ok(
            if c.root {
                "0"@
            } else {
                dec_str(c.gid as int)
            },
        )
    } else if sp == 'h' {
        Ok(
            if c.root {
                "/root"@
            } else {
                env_or(c.home, "~"@)
            },
        )
    } else if sp == 'H' {
        Ok(c.hostname)
    } else if sp == 'i' {
        if classify_name(filename) is Invalid {
            Err(())
        } else {
            Ok(escape_spec(instance_of(filename)))
        }
    } else if sp == 'I' {
        if classify_name(filename) is Invalid {
            Err(())
        } else {
            Ok(instance_of(filename))
        }
    } else if sp == 'j' {
        if classify_name(filename) is Invalid {
            Err(())
        } else {
            Ok(escape_spec(last_segment(prefix_of(filename))))
        }
    } else if sp == 'J' {
        if classify_name(filename) is Invalid {
            Err(())
        } else {
            Ok(last_segment(prefix_of(filename)))
        }
    } else if sp == 'l' {
        Ok(split_on(c.hostname, '.')[0])
    } else if sp == 'L' {
        Ok(
            if c.root {
                "/var/log"@
            } else {
                match c.state_home {
                    Option::Some(s) => s + "/log"@,
                    Option::None => "~/.local/state/log"@,
                }
            },
        )
    } else if sp == 'm' {
        Ok(c.machine_id)
    } else if sp == 'M' {
        Ok(c.os_image_id)
    } else if sp == 'n' {
        Ok(escape_spec(filename))
    } else if sp == 'N' {
        Ok(escape_spec(split_on(filename, '.')[0]))
    } else if sp == 'o' {
        Ok(c.os_id)
    } else if sp == 'p' {
        if classify_name(filename) is Invalid {
            Err(())
        } else {
            Ok(escape_spec(prefix_of(filename)))
        }
    } else if sp == 'P' {
        if classify_name(filename) is Invalid {
            Err(())
        } else {
            Ok(prefix_of(filename))
        }
    } else if sp == 'q' {
        Ok(split_on(c.hostname, '.')[0])
    } else if sp == 's' {
        Ok(env_or(c.shell, Seq::<char>::empty()))
    } else if sp == 'S' {
        Ok(
            if c.root {
                "/var/lib"@
            } else {
                env_or(c.state_home, "~/.local/share"@)
            },
        )
    } else if sp == 't' {
        Ok(
            if c.root {
                "/run"@
            } else {
                env_or(c.runtime_dir, "/run/user/"@ + dec_str(c.uid as int))
            },
        )
    } else if sp == 'T' {
        Ok(tmp_chain(c, "/tmp"@))
    } else if sp == 'u' {
        Ok(c.user_name)
    } else if sp == 'U' {
        Ok(dec_str(c.uid as int))
    } else if sp == 'v' {
        Ok(c.kernel_release)
    } else if sp == 'V' {
        Ok(tmp_chain(c, "/var/tmp"@))
    } else if sp == 'w' {
        Ok(c.os_version_id)
    } else if sp == 'W' {
        Ok(c.os_variant_id)
    } else if sp == 'y' {
        Ok(path)
    } else if sp == 'Y' {
        Ok(parent_dir_spec(path))
    } else if sp == '%' {
        Ok(seq!['%'])
    } else {
        Ok(Seq::<char>::empty())
    }
}

fn opt_or(o: &Option<String>, dflt: &str) -> (r: String)
    ensures
        r@ == env_or(opt_view(*o), dflt@),
{
    match o {
        Option::Some(s) => s.clone(),
        Option::None => String::from_str(dflt),
    }
}

/// The instance name of `filename`, or empty for a non-instance; an error
/// for a malformed name.
fn instance_part(filename: &str) -> (r: Result<String, Error>)
    ensures
        match r {
            Ok(s) => s@ == instance_of(filename@) && !(classify_name(filename@) is Invalid),
            Err(e) => classify_name(filename@) is Invalid && (e matches Error::InvalidFilenameError {
                filename: f,
            } && f@ == filename@),
        },
{
    match unit_type(filename) {
        Err(e) => Err(e),
        Ok(UnitType::Instance { instance_name, template_name: _ }) => Ok(instance_name),
        Ok(_) => Ok(String::new()),
    }
}

/// The prefix of `filename`; an error for a malformed name.
fn prefix_part(filename: &str) -> (r: Result<String, Error>)
    ensures
        match r {
            Ok(s) => s@ == prefix_of(filename@) && !(classify_name(filename@) is Invalid),
            Err(e) => classify_name(filename@) is Invalid && (e matches Error::InvalidFilenameError {
                filename: f,
            } && f@ == filename@),
        },
{
    match unit_type(filename) {
        Err(e) => Err(e),
        Ok(UnitType::Instance { instance_name: _, template_name }) => Ok(template_name),
        Ok(_) => {
            let v = before_first_char(filename, '.');
            Ok(string_from_chars(&v))
        },
    }
}

fn parent_dir(p: &str) -> (r: String)
    ensures
        r@ == parent_dir_spec(p@),
{
    let v = chars_of(p);
    let n: usize = v.len();
    let mut j: usize = n;
    while j > 0
        invariant
            j <= n,
            n == v@.len(),
            v@ == p@,
            forall|i: int| j <= i < n ==> v@[i] != '/',
        decreases j,
    {
        if v[j - 1] == '/' {
            proof {
                crate::text::lemma_last_index_is(v@, '/', j - 1);
            }
            let r = crate::text::subvec(&v, 0, j - 1);
            proof {
                assert(r@ =~= v@.take(j - 1));
            }
            return string_from_chars(&r);
        }
        j = j - 1;
    }
    proof {
        lemma_last_index_of(v@, '/');
        if last_index_of(v@, '/') >= 0 {
            assert(v@[last_index_of(v@, '/')] != '/');
            assert(false);
        }
    }
    String::new()
}

/// Resolves one specifier character against the context.
///
/// Returns the substitution text exactly as [`resolve_model`] ascribes it;
/// the only failure is [`Error::InvalidFilenameError`] on the
/// name-dependent specifiers (`%i %I %j %J %p %P`) when the filename holds
/// more than one `@`.
pub fn resolve(specifier: char, context: &SpecifierContext, filename: &str, path: &str) -> (r:
    Result<String, Error>)
    ensures
        match r {
            Ok(s) => resolve_model(specifier, context@, filename@, path@) == Ok::<Seq<char>, ()>(
                s@,
            ),
            Err(e) => resolve_model(specifier, context@, filename@, path@) == Err::<Seq<char>, ()>(
                (),
            ) && (e matches Error::InvalidFilenameError { filename: f } && f@ == filename@),
        },
{
    proof {
        reveal_strlit("");
        assert(""@ =~= Seq::<char>::empty());
    }
    if specifier == 'a' {
        Ok(context.arch.clone())
    } else if specifier == 'A' {
        Ok(context.os_image_version.clone())
    } else if specifier == 'b' {
        Ok(context.boot_id.clone())
    } else if specifier == 'B' {
        Ok(context.os_build_id.clone())
    } else if specifier == 'C' {
        if context.root {
            Ok(String::from_str("/var/cache"))
        } else {
            Ok(opt_or(&context.cache_home, "~/.cache"))
        }
    } else if specifier == 'd' {
        Ok(opt_or(&context.credentials_dir, ""))
    } else if specifier == 'E' {
        if context.root {
            Ok(String::from_str("/etc"))
        } else {
            Ok(opt_or(&context.config_home, "~/.config"))
        }
    } else if specifier == 'f' {
        Ok(String::from_str(filename))
    } else if specifier == 'g' {
        if context.root {
            Ok(String::from_str("root"))
        } else {
            Ok(context.group_name.clone())
        }
    } else if specifier == 'G' {
        if context.root {
            Ok(String::from_str("0"))
        } else {
            let d = u64_dec_chars(context.gid as u64);
            Ok(string_from_chars(&d))
        }
    } else if specifier == 'h' {
        if context.root {
            Ok(String::from_str("/root"))
        } else {
            Ok(opt_or(&context.home, "~"))
        }
    } else if specifier == 'H' {
        Ok(context.hostname.clone())
    } else if specifier == 'i' {
        match instance_part(filename) {
            Err(e) => Err(e),
            Ok(inst) => Ok(escape(inst.as_str())),
        }
    } else if specifier == 'I' {
        match instance_part(filename) {
            Err(e) => Err(e),
            Ok(inst) => Ok(inst),
        }
    } else if specifier == 'j' {
        match prefix_part(filename) {
            Err(e) => Err(e),
            Ok(pre) => {
                let seg = last_segment_after(pre.as_str(), '-');
                let seg_s = string_from_chars(&seg);
                Ok(escape(seg_s.as_str()))
            },
        }
    } else if specifier == 'J' {
        match prefix_part(filename) {
            Err(e) => Err(e),
            Ok(pre) => {
                let seg = last_segment_after(pre.as_str(), '-');
                Ok(string_from_chars(&seg))
            },
        }
    } else if specifier == 'l' || specifier == 'q' {
        let short = before_first_char(context.hostname.as_str(), '.');
        Ok(string_from_chars(&short))
    } else if specifier == 'L' {
        if context.root {
            Ok(String::from_str("/var/log"))
        } else {
            match &context.state_home {
                Option::Some(s) => Ok(s.clone().concat("/log")),
                Option::None => Ok(String::from_str("~/.local/state/log")),
            }
        }
    } else if specifier == 'm' {
        Ok(context.machine_id.clone())
    } else if specifier == 'M' {
        Ok(context.os_image_id.clone())
    } else if specifier == 'n' {
        Ok(escape(filename))
    } else if specifier == 'N' {
        let stem = before_first_char(filename, '.');
        let stem_s = string_from_chars(&stem);
        Ok(escape(stem_s.as_str()))
    } else if specifier == 'o' {
        Ok(context.os_id.clone())
    } else if specifier == 'p' {
        match prefix_part(filename) {
            Err(e) => Err(e),
            Ok(pre) => Ok(escape(pre.as_str())),
        }
    } else if specifier == 'P' {
        match prefix_part(filename) {
            Err(e) => Err(e),
            Ok(pre) => Ok(pre),
        }
    } else if specifier == 's' {
        Ok(opt_or(&context.shell, ""))
    } else if specifier == 'S' {
        if context.root {
            Ok(String::from_str("/var/lib"))
        } else {
            Ok(opt_or(&context.state_home, "~/.local/share"))
        }
    } else if specifier == 't' {
        if context.root {
            Ok(String::from_str("/run"))
        } else {
            match &context.runtime_dir {
                Option::Some(s) => Ok(s.clone()),
                Option::None => {
                    let d = u64_dec_chars(context.uid as u64);
                    let ds = string_from_chars(&d);
                    Ok(String::from_str("/run/user/").concat(ds.as_str()))
                },
            }
        }
    } else if specifier == 'T' {
        match &context.tmpdir {
            Option::Some(s) => Ok(s.clone()),
            Option::None => match &context.temp {
                Option::Some(s) => Ok(s.clone()),
                Option::None => Ok(opt_or(&context.tmp, "/tmp")),
            },
        }
    } else if specifier == 'u' {
        Ok(context.user_name.clone())
    } else if specifier == 'U' {
        let d = u64_dec_chars(context.uid as u64);
        Ok(string_from_chars(&d))
    } else if specifier == 'v' {
        Ok(context.kernel_release.clone())
    } else if specifier == 'V' {
        match &context.tmpdir {
            Option::Some(s) => Ok(s.clone()),
            Option::None => match &context.temp {
                Option::Some(s) => Ok(s.clone()),
                Option::None => Ok(opt_or(&context.tmp, "/var/tmp")),
            },
        }
    } else if specifier == 'w' {
        Ok(context.os_version_id.clone())
    } else if specifier == 'W' {
        Ok(context.os_variant_id.clone())
    } else if specifier == 'y' {
        Ok(String::from_str(path))
    } else if specifier == 'Y' {
        Ok(parent_dir(path))
    } else if specifier == '%' {
        let mut v: Vec<char> = Vec::new();
        v.push('%');
        proof {
            assert(v@ =~= seq!['%']);
        }
        Ok(string_from_chars(&v))
    } else {
        Ok(String::new())
    }
}

// ---------------------------------------------------------------------------
// Value-level substitution
// ---------------------------------------------------------------------------

/// A value with every `%x` placeholder substituted exactly once, left to
/// right.  A specifier that fails to resolve contributes the empty string;
/// a `%` at the very end of the value stays as it is.  Substituted text is
/// never rescanned.
pub open spec fn resolve_value_model(
    v: Seq<char>,
    c: ContextModel,
    filename: Seq<char>,
    path: Seq<char>,
) -> Seq<char>
    decreases v.len(),
{
    if v.len() == 0 {
        v
    } else if v[0] == '%' {
        if v.len() == 1 {
            v
        } else {
            let rep = match resolve_model(v[1], c, filename, path) {
                Ok(s) => s,
                Err(_) => Seq::<char>::empty(),
            };
            rep + resolve_value_model(v.skip(2), c, filename, path)
        }
    } else {
        seq![v[0]] + resolve_value_model(v.drop_first(), c, filename, path)
    }
}

/// Substitutes every specifier placeholder in `value` once.
pub fn resolve_value(value: &str, context: &SpecifierContext, filename: &str, path: &str) -> (r:
    String)
    ensures
        r@ == resolve_value_model(value@, context@, filename@, path@),
{
    let v = chars_of(value);
    let n: usize = v.len();
    let mut out: Vec<char> = Vec::new();
    let mut i: usize = 0;
    proof {
        assert(v@.skip(0) =~= v@);
    }
    while i < n
        invariant
            i <= n,
            n == v@.len(),
            v@ == value@,
            resolve_value_model(v@, context@, filename@, path@) == out@ + resolve_value_model(
                v@.skip(i as int),
                context@,
                filename@,
                path@,
            ),
        decreases n - i,
    {
        let ghost rest = v@.skip(i as int);
        proof {
            assert(rest[0] == v@[i as int]);
            if rest.len() >= 2 {
                assert(rest[1] == v@[i + 1]);
            }
            assert(rest.drop_first() =~= v@.skip(i + 1));
        }
        if v[i] == '%' && i + 1 < n {
            proof {
                assert(rest.skip(2) =~= v@.skip(i + 2));
            }
            let sp = v[i + 1];
            let rep: String = match resolve(sp, context, filename, path) {
                Ok(s) => s,
                Err(_) => String::new(),
            };
            let rv = chars_of(rep.as_str());
            let m: usize = rv.len();
            let ghost out0 = out@;
            let mut j: usize = 0;
            while j < m
                invariant
                    j <= m,
                    m == rv@.len(),
                    out@ == out0 + rv@.take(j as int),
                decreases m - j,
            {
                let ch = rv[j];
                out.push(ch);
                proof {
                    assert(out@ =~= out0 + rv@.take(j + 1));
                }
                j = j + 1;
            }
            proof {
                assert(rv@.take(m as int) =~= rv@);
                assert(out@ =~= out0 + rv@);
            }
            i = i + 2;
        } else {
            let c0 = v[i];
            out.push(c0);
            proof {
                if c0 == '%' {
                    // a lone trailing percent: the remaining text is just "%"
                    assert(rest.len() == 1);
                    assert(rest =~= seq!['%']);
                    assert(v@.skip(i + 1) =~= Seq::<char>::empty());
                }
            }
            i = i + 1;
        }
    }
    proof {
        assert(v@.skip(n as int) =~= Seq::<char>::empty());
        assert(out@ =~= resolve_value_model(v@, context@, filename@, path@));
    }
    string_from_chars(&out)
}

// ---------------------------------------------------------------------------
// The single-pass law
// ---------------------------------------------------------------------------

/// Specifier resolution is single-pass: a value that holds no `%` at all —
/// in particular any resolved value whose substitutions introduced no `%`
/// — is left exactly as it is by another round of resolution.
pub proof fn lemma_resolution_no_op(
    v: Seq<char>,
    c: ContextModel,
    filename: Seq<char>,
    path: Seq<char>,
)
    requires
        forall|i: int| 0 <= i < v.len() ==> v[i] != '%',
    ensures
        resolve_value_model(v, c, filename, path) == v,
    decreases v.len(),
{
    if v.len() > 0 {
        assert(forall|i: int| 0 <= i < v.drop_first().len() ==> v.drop_first()[i] == v[i + 1]);
        lemma_resolution_no_op(v.drop_first(), c, filename, path);
        assert(seq![v[0]] + v.drop_first() =~= v);
    }
}

} // verus!
