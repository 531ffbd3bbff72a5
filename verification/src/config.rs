//! Configuration values resolved by the surrounding command line: the
//! streamer's immutable settings and the rules for choosing the language
//! model command.

use vstd::prelude::*;
use vstd::string::StringExecFns;
use vstd::string::StrSliceExecFns;

verus! {

/// The configured language-model command: one command, or several named
/// commands.
#[derive(Debug)]
pub enum LlmCmdConfig {
    /// A single command string.
    Single(String),
    /// Named commands, in configuration order.
    Multiple(Vec<(String, String)>),
}

/// The settings a configuration file may carry; every field is optional.
#[derive(Debug)]
pub struct ConfigFile {
    /// Path of a theme file, relative to the configuration directory.
    pub theme_file: Option<String>,
    /// The language-model command or commands.
    pub llm_cmd: Option<LlmCmdConfig>,
    /// The inter-chunk delay, in microseconds.
    pub speed_micros: Option<u64>,
    /// The chunk size threshold.
    pub chunk_size: Option<usize>,
    /// The theme name.
    pub theme: Option<String>,
    /// Whether box banners are converted to headings.
    pub strip_boxes: Option<bool>,
    /// Whether the Markdown instruction is injected into queries.
    pub inject_md_instruction: Option<bool>,
}

/// The configuration the streamer runs with, immutable for the session.
#[derive(Debug)]
pub struct StreamerConfig {
    /// Buffered length at which a cut is forced.
    pub chunk_size: usize,
    /// The inter-chunk delay, in microseconds.
    pub delay_micros: u64,
    /// Whether box banners become Markdown headings.
    pub strip_boxes: bool,
    /// The command invoking the language model, if configured.
    pub llm_cmd: Option<String>,
    /// Whether queries carry the Markdown instruction.
    pub inject_md_instruction: bool,
    /// The built-in theme name.
    pub theme_name: String,
    /// Path of a custom theme file.
    pub theme_file: Option<String>,
}

/// The value of the first pair whose key is `key`.
pub open spec fn lookup_spec(pairs: Seq<(String, String)>, key: Seq<char>) -> Option<Seq<char>>
    decreases pairs.len(),
{
    if pairs.len() == 0 {
        None
    } else if pairs[0].0@ == key {
        Some(pairs[0].1@)
    } else {
        lookup_spec(pairs.drop_first(), key)
    }
}

/// What `resolve_llm_cmd` returns: a named command chosen by the given
/// preset; the `default` entry, or failing that the first entry, when no
/// preset is given; a single configured command as it stands; or the
/// command from the invocation when the file configures none.
pub open spec fn resolve_spec(cfg: Option<LlmCmdConfig>, cli: Option<Seq<char>>) -> Option<
    Seq<char>,
> {
    match cfg {
        Some(LlmCmdConfig::Multiple(pairs)) => match cli {
            Some(preset) => lookup_spec(pairs@, preset),
            None => match lookup_spec(pairs@, "default"@) {
                Some(v) => Some(v),
                None => if pairs@.len() > 0 {
                    Some(pairs@[0].1@)
                } else {
                    None
                },
            },
        },
        Some(LlmCmdConfig::Single(cmd)) => Some(cmd@),
        None => match cli {
            Some(c) => Some(c),
            None => None,
        },
    }
}

pub(crate) fn str_eq(a: &str, b: &str) -> (r: bool)
    ensures
        r == (a@ == b@),
{
    let n = a.unicode_len();
    if n != b.unicode_len() {
        return false;
    }
    let mut k: usize = 0;
    while k < n
        invariant
            k <= n,
            n == a@.len() == b@.len(),
            forall|t: int| 0 <= t < k ==> a@[t] == b@[t],
        decreases n - k,
    {
        if a.get_char(k) != b.get_char(k) {
            return false;
        }
        k += 1;
    }
    proof {
        assert(a@ =~= b@);
    }
    true
}

fn lookup(pairs: &Vec<(String, String)>, key: &str) -> (r: Option<String>)
    ensures
        match r {
            Some(v) => lookup_spec(pairs@, key@) == Some(v@),
            None => lookup_spec(pairs@, key@) is None,
        },
{
    let mut k: usize = 0;
    proof {
        assert(pairs@.skip(0) =~= pairs@);
    }
    while k < pairs.len()
        invariant
            k <= pairs.len(),
            lookup_spec(pairs@, key@) == lookup_spec(pairs@.skip(k as int), key@),
        decreases pairs.len() - k,
    {
        proof {
            assert(pairs@.skip(k as int)[0] == pairs@[k as int]);
            assert(pairs@.skip(k as int).drop_first() =~= pairs@.skip(k + 1 as int));
        }
        if str_eq(pairs[k].0.as_str(), key) {
            return Some(String::from_str(pairs[k].1.as_str()));
        }
        k += 1;
    }
    proof {
        assert(pairs@.skip(pairs@.len() as int).len() == 0);
    }
    None
}

impl ConfigFile {
    /// Resolves the language-model command from the configuration and the
    /// command given on the invocation.
    pub fn resolve_llm_cmd(&self, cli_llm_cmd: Option<&str>) -> (r: Option<String>)
        ensures
            match r {
                Some(v) => resolve_spec(
                    self.llm_cmd,
                    match cli_llm_cmd {
                        Some(c) => Some(c@),
                        None => None,
                    },
                ) == Some(v@),
                None => resolve_spec(
                    self.llm_cmd,
                    match cli_llm_cmd {
                        Some(c) => Some(c@),
                        None => None,
                    },
                ) is None,
            },
    {
        match (&self.llm_cmd, cli_llm_cmd) {
            (Some(LlmCmdConfig::Multiple(pairs)), Some(preset)) => lookup(pairs, preset),
            (Some(LlmCmdConfig::Multiple(pairs)), None) => {
                match lookup(pairs, "default") {
                    Some(v) => Some(v),
                    None => {
                        if pairs.len() > 0 {
                            Some(String::from_str(pairs[0].1.as_str()))
                        } else {
                            None
                        }
                    },
                }
            },
            (Some(LlmCmdConfig::Single(cmd)), _) => Some(String::from_str(cmd.as_str())),
            (None, Some(cmd)) => Some(cmd.to_owned()),
            (None, None) => None,
        }
    }
}

} // verus!
