use crate::path::{file_name, file_name_of};
use crate::platform::Platform;
use crate::text::{chars_of, normalize_chars, normalized, split, split_chars, string_from, views};
use vstd::prelude::*;

verus! {

/// What the observer is configured to do: the process to watch for and the
/// process to keep running beside it.
#[derive(Clone, Debug, PartialEq, Eq)]
pub struct Obs {
    /// Name of the process whose presence calls for the target.
    pub trigger_process_name: String,
    /// Path from which the target is started when no instance of it exists.
    pub target_process_path: String,
    /// Name under which the target appears in the process table.
    pub target_process_name: String,
    /// Arguments for the target, separated by single spaces.
    pub target_args: String,
}

/// The values of an `Obs` as character sequences.
pub struct ObsView {
    pub trigger_process_name: Seq<char>,
    pub target_process_path: Seq<char>,
    pub target_process_name: Seq<char>,
    pub target_args: Seq<char>,
}

impl ObsView {
    /// A configuration can be watched with when it names a trigger, and
    /// names the target by its path or by its process name.
    pub open spec fn valid(self) -> bool {
        self.trigger_process_name.len() > 0 && (self.target_process_path.len() > 0
            || self.target_process_name.len() > 0)
    }
}

impl View for Obs {
    type V = ObsView;

    open spec fn view(&self) -> ObsView {
        ObsView {
            trigger_process_name: self.trigger_process_name@,
            target_process_path: self.target_process_path@,
            target_process_name: self.target_process_name@,
            target_args: self.target_args@,
        }
    }
}

impl Obs {
    /// Whether the configuration names a trigger and a target.
    pub fn is_valid(&self) -> (ok: bool)
        ensures
            ok == self@.valid(),
    {
        !self.trigger_process_name.as_str().is_empty() && (
        !self.target_process_path.as_str().is_empty()
            || !self.target_process_name.as_str().is_empty())
    }
}

impl Default for Obs {
    /// The configuration with every value empty. It is not valid.
    fn default() -> (obs: Obs)
        ensures
            obs@.trigger_process_name.len() == 0,
            obs@.target_process_path.len() == 0,
            obs@.target_process_name.len() == 0,
            obs@.target_args.len() == 0,
    {
        Obs {
            trigger_process_name: String::new(),
            target_process_path: String::new(),
            target_process_name: String::new(),
            target_args: String::new(),
        }
    }
}

/// The keys that a configuration text may set.
#[derive(Clone, Copy, Debug, PartialEq, Eq)]
pub enum Key {
    Trigger,
    TargetPath,
    TargetName,
    TargetArgs,
}

impl Key {
    /// The key as it is written in a configuration text.
    pub open spec fn spelling(self) -> Seq<char> {
        match self {
            Key::Trigger => "trigger_process_name"@,
            Key::TargetPath => "target_process_path"@,
            Key::TargetName => "target_process_name"@,
            Key::TargetArgs => "target_args"@,
        }
    }

    /// The key as it is written in a configuration text.
    pub fn name(self) -> (s: &'static str)
        ensures
            s@ == self.spelling(),
    {
        match self {
            Key::Trigger => "trigger_process_name",
            Key::TargetPath => "target_process_path",
            Key::TargetName => "target_process_name",
            Key::TargetArgs => "target_args",
        }
    }
}

/// Why a configuration text was rejected.
#[derive(Clone, Copy, Debug, PartialEq, Eq)]
pub enum ConfigError {
    /// A line begins with a key and holds no `=`. Lines count from one.
    MalformedEntry { line: usize },
    /// No trigger process is named.
    MissingTrigger,
    /// The target is named neither by path nor by process name.
    MissingTarget,
}

/// The key that `line` sets: the one whose spelling the line begins with.
pub open spec fn key_of(line: Seq<char>) -> Option<Key> {
    if Key::Trigger.spelling().is_prefix_of(line) {
        Some(Key::Trigger)
    } else if Key::TargetPath.spelling().is_prefix_of(line) {
        Some(Key::TargetPath)
    } else if Key::TargetName.spelling().is_prefix_of(line) {
        Some(Key::TargetName)
    } else if Key::TargetArgs.spelling().is_prefix_of(line) {
        Some(Key::TargetArgs)
    } else {
        None
    }
}

/// The value that `line` gives: what stands between its first `=` and its
/// next `=`, or its end. A line without `=` gives none.
pub open spec fn value_of(line: Seq<char>) -> Option<Seq<char>> {
    let fields = split(line, '=');
    if fields.len() >= 2 {
        Some(fields[1])
    } else {
        None
    }
}

/// A line that begins with a key and gives no value.
pub open spec fn is_malformed(line: Seq<char>) -> bool {
    key_of(line) is Some && value_of(line) is None
}

/// The number of the first malformed line among `lines`, counting from one.
pub open spec fn first_malformed(lines: Seq<Seq<char>>) -> Option<nat>
    decreases lines.len(),
{
    if lines.len() == 0 {
        None
    } else {
        match first_malformed(lines.drop_last()) {
            Some(line) => Some(line),
            None => if is_malformed(lines.last()) {
                Some(lines.len())
            } else {
                None
            },
        }
    }
}

/// The value that `lines` give to `key`, as written: that of the last line
/// that sets the key, and the empty value when no line does.
pub open spec fn raw_value(lines: Seq<Seq<char>>, key: Key) -> Seq<char>
    decreases lines.len(),
{
    if lines.len() == 0 {
        Seq::empty()
    } else if key_of(lines.last()) == Some(key) && value_of(lines.last()) is Some {
        value_of(lines.last())->0
    } else {
        raw_value(lines.drop_last(), key)
    }
}

/// The configuration that `lines` describe: each value in its normal form,
/// and the target's process name taken from the final component of its path
/// where the lines give none.
pub open spec fn assembled(platform: Platform, lines: Seq<Seq<char>>) -> ObsView {
    let path = normalized(raw_value(lines, Key::TargetPath));
    let name = normalized(raw_value(lines, Key::TargetName));
    ObsView {
        trigger_process_name: normalized(raw_value(lines, Key::Trigger)),
        target_process_path: path,
        target_process_name: if name.len() > 0 {
            name
        } else {
            match file_name(platform, path) {
                Some(last) => last,
                None => Seq::empty(),
            }
        },
        target_args: normalized(raw_value(lines, Key::TargetArgs)),
    }
}

/// What a configuration text comes to. The text is cut into lines at every
/// line feed. The first malformed line rejects it; so does a configuration
/// that names no trigger, or no target.
pub open spec fn parsed(platform: Platform, text: Seq<char>) -> Result<ObsView, ConfigError> {
    let lines = split(text, '\n');
    let obs = assembled(platform, lines);
    match first_malformed(lines) {
        Some(line) => Err(ConfigError::MalformedEntry { line: line as usize }),
        None => if obs.trigger_process_name.len() == 0 {
            Err(ConfigError::MissingTrigger)
        } else if obs.target_process_path.len() == 0 && obs.target_process_name.len() == 0 {
            Err(ConfigError::MissingTarget)
        } else {
            Ok(obs)
        },
    }
}

/// Once a line is malformed, the lines that follow do not change which one
/// was the first.
proof fn lemma_first_malformed_stays(lines: Seq<Seq<char>>, n: int)
    requires
        0 <= n <= lines.len(),
        first_malformed(lines.take(n)) is Some,
    ensures
        first_malformed(lines) == first_malformed(lines.take(n)),
    decreases lines.len() - n,
{
    if n == lines.len() {
        assert(lines.take(n) =~= lines);
    } else {
        assert(lines.take(n + 1).drop_last() =~= lines.take(n));
        lemma_first_malformed_stays(lines, n + 1);
    }
}

/// Whether `line` begins with the spelling of `key`.
fn begins_with(line: &Vec<char>, key: Key) -> (b: bool)
    ensures
        b == key.spelling().is_prefix_of(line@),
{
    let name = chars_of(key.name());
    if name.len() > line.len() {
        return false;
    }
    let mut i: usize = 0;
    while i < name.len()
        invariant
            i <= name.len() <= line.len(),
            name@ == key.spelling(),
            name@.take(i as int) == line@.take(i as int),
        decreases name.len() - i,
    {
        if name[i] != line[i] {
            proof {
                assert(line@.subrange(0, name.len() as int)[i as int] == line@[i as int]);
            }
            return false;
        }
        proof {
            assert(name@.take(i + 1) =~= name@.take(i as int).push(name@[i as int]));
            assert(line@.take(i + 1) =~= line@.take(i as int).push(line@[i as int]));
        }
        i += 1;
    }
    proof {
        assert(name@.take(i as int) =~= name@);
        assert(line@.take(i as int) =~= line@.subrange(0, name.len() as int));
    }
    true
}

/// The key that `line` sets, if it sets one.
fn key_of_line(line: &Vec<char>) -> (key: Option<Key>)
    ensures
        key == key_of(line@),
{
    if begins_with(line, Key::Trigger) {
        Some(Key::Trigger)
    } else if begins_with(line, Key::TargetPath) {
        Some(Key::TargetPath)
    } else if begins_with(line, Key::TargetName) {
        Some(Key::TargetName)
    } else if begins_with(line, Key::TargetArgs) {
        Some(Key::TargetArgs)
    } else {
        None
    }
}

/// Reads a configuration text: lines of the form `key=value`. A line sets
/// the key that it begins with, to what stands between its first `=` and
/// its next `=` or its end; other lines are passed over. Where a key is set
/// more than once the last line holds. Values are brought to their normal
/// form. A target without a process name of its own goes by the final
/// component of its path.
///
/// The text is rejected if a line begins with a key and holds no `=`, if no
/// trigger is named, or if the target has neither path nor name.
pub fn parse_config(platform: Platform, text: &str) -> (r: Result<Obs, ConfigError>)
    ensures
        match r {
            Ok(obs) => parsed(platform, text@) == Ok::<ObsView, ConfigError>(obs@),
            Err(e) => parsed(platform, text@) == Err::<ObsView, ConfigError>(e),
        },
        r matches Ok(obs) ==> obs@.valid(),
        ({
            let lines = split(text@, '\n');
            normalized(raw_value(lines, Key::Trigger)).len() == 0 || (normalized(
                raw_value(lines, Key::TargetPath),
            ).len() == 0 && normalized(raw_value(lines, Key::TargetName)).len() == 0)
        }) ==> r is Err,
{
    let chars = chars_of(text);
    let lines = split_chars(&chars, '\n');
    let mut trigger: Vec<char> = Vec::new();
    let mut path: Vec<char> = Vec::new();
    let mut name: Vec<char> = Vec::new();
    let mut args: Vec<char> = Vec::new();
    let ghost all = views(lines@);
    let mut i: usize = 0;
    while i < lines.len()
        invariant
            i <= lines.len(),
            all == views(lines@),
            all == split(text@, '\n'),
            first_malformed(all.take(i as int)) is None,
            trigger@ == raw_value(all.take(i as int), Key::Trigger),
            path@ == raw_value(all.take(i as int), Key::TargetPath),
            name@ == raw_value(all.take(i as int), Key::TargetName),
            args@ == raw_value(all.take(i as int), Key::TargetArgs),
        decreases lines.len() - i,
    {
        proof {
            assert(all.take(i + 1).drop_last() =~= all.take(i as int));
            assert(all.take(i + 1).last() == lines[i as int]@);
        }
        match key_of_line(&lines[i]) {
            None => {},
            Some(key) => {
                let mut fields = split_chars(&lines[i], '=');
                if fields.len() < 2 {
                    proof {
                        assert(views(fields@).len() == fields.len());
                        assert(is_malformed(all[i as int]));
                        assert(first_malformed(all.take(i + 1)) == Some((i + 1) as nat));
                        lemma_first_malformed_stays(all, i + 1);
                    }
                    return Err(ConfigError::MalformedEntry { line: i + 1 });
                }
                let value = fields.swap_remove(1);
                match key {
                    Key::Trigger => {
                        trigger = value;
                    },
                    Key::TargetPath => {
                        path = value;
                    },
                    Key::TargetName => {
                        name = value;
                    },
                    Key::TargetArgs => {
                        args = value;
                    },
                }
            },
        }
        i += 1;
    }
    proof {
        assert(all.take(i as int) =~= all);
    }
    let target_process_path = string_from(&normalize_chars(&path));
    let own_name = normalize_chars(&name);
    let target_process_name = if own_name.len() > 0 {
        string_from(&own_name)
    } else {
        match file_name_of(platform, target_process_path.as_str()) {
            Some(last) => last,
            None => String::new(),
        }
    };
    let obs = Obs {
        trigger_process_name: string_from(&normalize_chars(&trigger)),
        target_process_path,
        target_process_name,
        target_args: string_from(&normalize_chars(&args)),
    };
    proof {
        assert(obs@ == assembled(platform, all));
    }
    if obs.trigger_process_name.as_str().is_empty() {
        Err(ConfigError::MissingTrigger)
    } else if obs.target_process_path.as_str().is_empty()
        && obs.target_process_name.as_str().is_empty() {
        Err(ConfigError::MissingTarget)
    } else {
        Ok(obs)
    }
}

} // verus!
