//! The configuration store: where hook and configuration records live and
//! what their file contents look like. All decisions are made here against
//! exact contracts; reading and writing the files themselves is the
//! caller's task, which hands file contents in and takes file contents out
//! as plain strings.

use crate::codec::{
    encode_commands, encode_commands_chars, encode_config, encode_config_chars, parse_commands,
    parse_config, parse_config_text, parse_hook_text, split_chars,
};
use crate::command::cmds_view;
use crate::config::{spec_default_version, Config};
use crate::error::HookmanError;
use crate::hook::{ids_unique, spec_hook_name, spec_parse_hook_name, Hook, HookType};
use crate::text::{chars_to_string, str_eq, str_to_chars};
use vstd::prelude::*;
use vstd::string::*;

verus! {

/// The storage root, relative to the repository root.
pub fn get_hookman_dir() -> (r: String)
    ensures
        r@ == ".hookman"@,
{
    ".hookman".to_owned()
}

/// The hooks sub-area of the storage root.
pub fn get_hooks_dir() -> (r: String)
    ensures
        r@ == ".hookman/hooks"@,
{
    ".hookman/hooks".to_owned()
}

/// Where Git expects the installed hook scripts, relative to the
/// repository root.
pub fn get_git_hooks_dir() -> (r: String)
    ensures
        r@ == ".git/hooks"@,
{
    ".git/hooks".to_owned()
}

/// The file name a hook of the given type is stored under.
pub open spec fn hook_file_name(h: HookType) -> Seq<char> {
    spec_hook_name(h) + ".toml"@
}

/// Which hook type, if any, a stored file name denotes: the stem of a
/// `.toml` file whose stem is a canonical hook name.
pub open spec fn stem_hook(name: Seq<char>) -> Option<HookType> {
    if name.len() >= 5 && name.subrange(name.len() - 5, name.len() as int) == ".toml"@ {
        spec_parse_hook_name(name.take(name.len() - 5))
    } else {
        None
    }
}

/// The hook types denoted by a list of stored file names, in list order;
/// names that denote no hook type are skipped.
pub open spec fn hooks_of_names(names: Seq<Seq<char>>) -> Seq<HookType>
    decreases names.len(),
{
    if names.len() == 0 {
        Seq::empty()
    } else {
        let rest = hooks_of_names(names.skip(1));
        match stem_hook(names[0]) {
            Some(h) => seq![h] + rest,
            None => rest,
        }
    }
}

/// One more name appends at most one more hook type.
proof fn lemma_hooks_of_names_push(names: Seq<Seq<char>>, n: Seq<char>)
    ensures
        hooks_of_names(names.push(n)) == hooks_of_names(names) + (match stem_hook(n) {
            Some(h) => seq![h],
            None => Seq::<HookType>::empty(),
        }),
    decreases names.len(),
{
    let tail = match stem_hook(n) {
        Some(h) => seq![h],
        None => Seq::<HookType>::empty(),
    };
    if names.len() == 0 {
        assert(names.push(n)[0] == n);
        assert(names.push(n).skip(1) =~= Seq::<Seq<char>>::empty());
        assert(hooks_of_names(Seq::<Seq<char>>::empty()) == Seq::<HookType>::empty());
        match stem_hook(n) {
            Some(h) => {
                assert(seq![h] + Seq::<HookType>::empty() =~= seq![h]);
                assert(hooks_of_names(names) + tail =~= seq![h]);
            },
            None => {
                assert(hooks_of_names(names) + tail =~= Seq::<HookType>::empty());
            },
        }
    } else {
        assert(names.push(n)[0] == names[0]);
        assert(names.push(n).skip(1) =~= names.skip(1).push(n));
        lemma_hooks_of_names_push(names.skip(1), n);
        match stem_hook(names[0]) {
            Some(h) => {
                assert(hooks_of_names(names.push(n)) == seq![h] + (hooks_of_names(names.skip(1))
                    + tail));
                assert(seq![h] + (hooks_of_names(names.skip(1)) + tail) =~= (seq![h]
                    + hooks_of_names(names.skip(1))) + tail);
            },
            None => {},
        }
    }
}

/// The views of a list of strings.
pub open spec fn strs_view(ss: Seq<String>) -> Seq<Seq<char>> {
    ss.map_values(|s: String| s@)
}

/// What a fresh store looks like: the directories to create and the
/// configuration file to write.
#[derive(Debug)]
pub struct InitPlan {
    /// The storage root directory.
    pub root_dir: String,
    /// The hooks sub-area inside the root.
    pub hooks_dir: String,
    /// The configuration file name inside the root.
    pub config_file: String,
    /// The configuration file's contents.
    pub config_contents: String,
}

/// The capability interface of the configuration store. One record format
/// stands behind it here; every method is a pure function of its
/// arguments, so a backend only relays file contents.
pub trait Storage {
    /// The plan for a fresh store: its directories and a configuration
    /// record carrying the current version.
    fn init(&self) -> (r: InitPlan)
        ensures
            r.root_dir@ == ".hookman"@,
            r.hooks_dir@ == ".hookman/hooks"@,
            r.config_file@ == "config.toml"@,
            r.config_contents@ == encode_config(spec_default_version()),
    ;

    /// Whether the store is initialized, given whether its root directory
    /// exists.
    fn is_initialized(&self, root_exists: bool) -> (r: bool)
        ensures
            r == root_exists,
    ;

    /// The hook of the given type, from its file's contents; no file is
    /// the canonical empty state, and the stored type field is never
    /// trusted — the requested type always wins.
    fn load_hook(&self, hook_type: HookType, file: Option<&str>) -> (r: Result<
        Hook,
        HookmanError,
    >)
        ensures
            match file {
                None => (r matches Ok(h) && h@.hook_type == hook_type && h@.commands.len() == 0),
                Some(s) => match parse_hook_text(s@) {
                    Some(cs) => if ids_unique(cs) {
                        r matches Ok(h) && h@.hook_type == hook_type && h@.commands == cs
                    } else {
                        r matches Err(e) && e matches HookmanError::TomlError(_)
                    },
                    None => (r matches Err(e) && e matches HookmanError::TomlError(_)),
                },
            },
            r matches Ok(h) ==> h.wf(),
    ;

    /// The file a hook is saved to and that file's contents: only the
    /// command list is persisted, never the type field. Loading this text
    /// back yields the same commands:
    /// [`crate::codec::lemma_hook_file_round_trip`].
    fn save_hook(&self, hook: &Hook) -> (r: (String, String))
        ensures
            r.0@ == hook_file_name(hook@.hook_type),
            r.1@ == encode_commands(hook@.commands),
    ;

    /// The hook types configured in the store, given the file names found
    /// in the hooks sub-area; unrecognized names are silently skipped.
    fn list_hooks(&self, file_names: &Vec<String>) -> (r: Vec<HookType>)
        ensures
            r@ == hooks_of_names(strs_view(file_names@)),
    ;

    /// The configuration record, from its file's contents; no file yields
    /// the default record.
    fn load_config(&self, file: Option<&str>) -> (r: Result<Config, HookmanError>)
        ensures
            match file {
                None => (r matches Ok(c) && c.version@ == spec_default_version()),
                Some(s) => match parse_config_text(s@) {
                    Some(v) => (r matches Ok(c) && c.version@ == v),
                    None => (r matches Err(e) && e matches HookmanError::TomlError(_)),
                },
            },
    ;

    /// The file the configuration is saved to and that file's contents.
    fn save_config(&self, config: &Config) -> (r: (String, String))
        ensures
            r.0@ == "config.toml"@,
            r.1@ == encode_config(config.version@),
    ;
}

/// The one storage backend: hooks and configuration as TOML-like records,
/// one file per hook type plus one global file.
pub struct TomlStorage;

impl TomlStorage {
    /// Builds the store handle.
    pub fn new() -> TomlStorage {
        TomlStorage
    }
}

/// Whether two commands of the list share an id.
fn has_duplicate_ids(cs: &Vec<crate::command::Command>) -> (r: bool)
    ensures
        r == !ids_unique(cmds_view(cs@)),
{
    let ghost v = cmds_view(cs@);
    let mut i: usize = 1;
    while i < cs.len()
        invariant
            1 <= i,
            v == cmds_view(cs@),
            forall|a: int, b: int| 0 <= a < b < i && b < v.len() ==> v[a].id != v[b].id,
        decreases cs.len() - i,
    {
        let mut j: usize = 0;
        while j < i
            invariant
                j <= i < cs@.len(),
                v == cmds_view(cs@),
                forall|a: int| 0 <= a < j ==> v[a].id != v[i as int].id,
            decreases i - j,
        {
            if cs[j].id == cs[i].id {
                proof {
                    assert(v[j as int].id == v[i as int].id);
                    assert(!ids_unique(v)) by {
                        if ids_unique(v) {
                            assert(v[j as int].id != v[i as int].id);
                        }
                    }
                }
                return true;
            }
            j += 1;
        }
        i += 1;
    }
    proof {
        assert(ids_unique(v));
    }
    false
}

impl Storage for TomlStorage {
    fn init(&self) -> (r: InitPlan) {
        let config = Config::default();
        let contents_chars = encode_config_chars(config.version.as_str());
        InitPlan {
            root_dir: get_hookman_dir(),
            hooks_dir: get_hooks_dir(),
            config_file: "config.toml".to_owned(),
            config_contents: chars_to_string(&contents_chars),
        }
    }

    fn is_initialized(&self, root_exists: bool) -> (r: bool) {
        root_exists
    }

    fn load_hook(&self, hook_type: HookType, file: Option<&str>) -> (r: Result<
        Hook,
        HookmanError,
    >) {
        match file {
            None => Ok(Hook::new(hook_type)),
            Some(s) => {
                let chars = str_to_chars(s);
                let ls = split_chars(&chars);
                match parse_commands(&ls) {
                    None => Err(
                        HookmanError::TomlError("hook file is not a valid record".to_owned()),
                    ),
                    Some(cs) => {
                        if has_duplicate_ids(&cs) {
                            Err(
                                HookmanError::TomlError(
                                    "hook file repeats a command id".to_owned(),
                                ),
                            )
                        } else {
                            Ok(Hook { hook_type, commands: cs })
                        }
                    },
                }
            },
        }
    }

    fn save_hook(&self, hook: &Hook) -> (r: (String, String)) {
        let name = hook.hook_type.as_str().to_owned().concat(".toml");
        let contents_chars = encode_commands_chars(&hook.commands);
        (name, chars_to_string(&contents_chars))
    }

    fn list_hooks(&self, file_names: &Vec<String>) -> (r: Vec<HookType>) {
        let ghost names = strs_view(file_names@);
        let mut out: Vec<HookType> = Vec::new();
        let mut i: usize = 0;
        proof {
            assert(names.take(0) =~= Seq::<Seq<char>>::empty());
            assert(out@ =~= hooks_of_names(names.take(0)));
        }
        while i < file_names.len()
            invariant
                i <= file_names@.len(),
                names == strs_view(file_names@),
                out@ == hooks_of_names(names.take(i as int)),
            decreases file_names@.len() - i,
        {
            let ghost name = names[i as int];
            let n = file_names[i].as_str();
            proof {
                assert(name == n@);
            }
            let len = n.unicode_len();
            let ghost found: Option<HookType> = stem_hook(name);
            if len >= 5 {
                let suffix = n.substring_char(len - 5, len);
                if str_eq(suffix, ".toml") {
                    let stem = n.substring_char(0, len - 5);
                    proof {
                        assert(stem@ == name.take(name.len() - 5));
                    }
                    match HookType::parse_name(stem) {
                        Some(h) => {
                            out.push(h);
                        },
                        None => {},
                    }
                } else {
                    proof {
                        assert(found is None);
                    }
                }
            } else {
                proof {
                    assert(found is None);
                }
            }
            proof {
                lemma_hooks_of_names_push(names.take(i as int), name);
                assert(names.take(i as int).push(name) =~= names.take(i as int + 1));
                match found {
                    Some(h) => {
                        assert(hooks_of_names(names.take(i as int)) + seq![h]
                            =~= hooks_of_names(names.take(i as int)).push(h));
                    },
                    None => {
                        assert(hooks_of_names(names.take(i as int)) + Seq::<HookType>::empty()
                            =~= hooks_of_names(names.take(i as int)));
                    },
                }
            }
            i += 1;
        }
        proof {
            assert(names.take(names.len() as int) =~= names);
        }
        out
    }

    fn load_config(&self, file: Option<&str>) -> (r: Result<Config, HookmanError>) {
        match file {
            None => Ok(Config::default()),
            Some(s) => {
                let chars = str_to_chars(s);
                let ls = split_chars(&chars);
                match parse_config(&ls) {
                    None => Err(
                        HookmanError::TomlError(
                            "configuration file is not a valid record".to_owned(),
                        ),
                    ),
                    Some(v) => Ok(Config { version: chars_to_string(&v) }),
                }
            },
        }
    }

    fn save_config(&self, config: &Config) -> (r: (String, String)) {
        let contents_chars = encode_config_chars(config.version.as_str());
        ("config.toml".to_owned(), chars_to_string(&contents_chars))
    }
}

} // verus!
