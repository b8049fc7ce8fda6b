//! Contest run modes: which test runner the kernel starts, chosen from the
//! command line, from the files of a final-round image, or by default.
use vstd::prelude::*;
use vstd::string::StrSliceExecFns;

use crate::bootargs::{equals_at, has_prefix_at, is_space, lemma_single_word, next_word, starts_with_at, words, words_from};

verus! {

/// The outcome of a contest run.
#[derive(Clone, Copy, Debug, PartialEq, Eq, Structural)]
pub enum ContestVerdict {
    Passed,
    Failed,
    TimedOut,
}

pub open spec fn verdict_word_spec(verdict: ContestVerdict) -> Seq<char> {
    match verdict {
        ContestVerdict::Passed => "pass"@,
        ContestVerdict::Failed => "fail"@,
        ContestVerdict::TimedOut => "timeout"@,
    }
}

/// The word of the `CONTEST_RESULT mode=<mode> <word>` line for a verdict.
pub fn verdict_word(verdict: ContestVerdict) -> (word: &'static str)
    ensures
        word@ == verdict_word_spec(verdict),
{
    match verdict {
        ContestVerdict::Passed => "pass",
        ContestVerdict::Failed => "fail",
        ContestVerdict::TimedOut => "timeout",
    }
}

#[derive(Clone, Copy, Debug, PartialEq, Eq, Structural)]
pub enum RunMode {
    Preliminary,
    FinalCagent,
    FinalBuildstorm,
    FinalBuildstormDiag,
    LifecycleStress,
    FinalAll,
}

pub open spec fn mode_name(mode: RunMode) -> Seq<char> {
    match mode {
        RunMode::Preliminary => "preliminary"@,
        RunMode::FinalCagent => "final-cagent"@,
        RunMode::FinalBuildstorm => "final-buildstorm"@,
        RunMode::FinalBuildstormDiag => "final-buildstorm-diag"@,
        RunMode::LifecycleStress => "lifecycle-stress"@,
        RunMode::FinalAll => "final-all"@,
    }
}

impl RunMode {
    pub fn name(self) -> (name: &'static str)
        ensures
            name@ == mode_name(self),
    {
        match self {
            RunMode::Preliminary => "preliminary",
            RunMode::FinalCagent => "final-cagent",
            RunMode::FinalBuildstorm => "final-buildstorm",
            RunMode::FinalBuildstormDiag => "final-buildstorm-diag",
            RunMode::LifecycleStress => "lifecycle-stress",
            RunMode::FinalAll => "final-all",
        }
    }
}

/// The mode that a command-line value names.
pub open spec fn parse_mode_spec(value: Seq<char>) -> Option<RunMode> {
    if value == "preliminary"@ {
        Some(RunMode::Preliminary)
    } else if value == "final-cagent"@ {
        Some(RunMode::FinalCagent)
    } else if value == "final-buildstorm"@ {
        Some(RunMode::FinalBuildstorm)
    } else if value == "final-buildstorm-diag"@ {
        Some(RunMode::FinalBuildstormDiag)
    } else if value == "lifecycle-stress"@ {
        Some(RunMode::LifecycleStress)
    } else if value == "final-all"@ {
        Some(RunMode::FinalAll)
    } else {
        None
    }
}

/// Parsing a mode's name gives the mode back, so no two modes share a name.
pub proof fn lemma_mode_name_parses(mode: RunMode, other: RunMode)
    ensures
        parse_mode_spec(mode_name(mode)) == Some(mode),
        mode != other ==> mode_name(mode) != mode_name(other),
{
    reveal_strlit("preliminary");
    reveal_strlit("final-cagent");
    reveal_strlit("final-buildstorm");
    reveal_strlit("final-buildstorm-diag");
    reveal_strlit("lifecycle-stress");
    reveal_strlit("final-all");
    assert("preliminary"@ != "final-cagent"@) by {
        assert("preliminary"@[0] != "final-cagent"@[0]);
    }
    assert("preliminary"@ != "final-buildstorm"@) by {
        assert("preliminary"@[0] != "final-buildstorm"@[0]);
    }
    assert("preliminary"@ != "final-buildstorm-diag"@) by {
        assert("preliminary"@[0] != "final-buildstorm-diag"@[0]);
    }
    assert("preliminary"@ != "lifecycle-stress"@) by {
        assert("preliminary"@[0] != "lifecycle-stress"@[0]);
    }
    assert("preliminary"@ != "final-all"@) by {
        assert("preliminary"@[0] != "final-all"@[0]);
    }
    assert("final-cagent"@ != "final-buildstorm"@) by {
        assert("final-cagent"@[6] != "final-buildstorm"@[6]);
    }
    assert("final-cagent"@ != "final-buildstorm-diag"@) by {
        assert("final-cagent"@[6] != "final-buildstorm-diag"@[6]);
    }
    assert("final-cagent"@ != "lifecycle-stress"@) by {
        assert("final-cagent"@[0] != "lifecycle-stress"@[0]);
    }
    assert("final-cagent"@ != "final-all"@) by {
        assert("final-cagent"@[6] != "final-all"@[6]);
    }
    assert("final-buildstorm"@ != "final-buildstorm-diag"@) by {
        assert("final-buildstorm"@.len() != "final-buildstorm-diag"@.len());
    }
    assert("final-buildstorm"@ != "lifecycle-stress"@) by {
        assert("final-buildstorm"@[0] != "lifecycle-stress"@[0]);
    }
    assert("final-buildstorm"@ != "final-all"@) by {
        assert("final-buildstorm"@[6] != "final-all"@[6]);
    }
    assert("final-buildstorm-diag"@ != "lifecycle-stress"@) by {
        assert("final-buildstorm-diag"@[0] != "lifecycle-stress"@[0]);
    }
    assert("final-buildstorm-diag"@ != "final-all"@) by {
        assert("final-buildstorm-diag"@[6] != "final-all"@[6]);
    }
    assert("lifecycle-stress"@ != "final-all"@) by {
        assert("lifecycle-stress"@[0] != "final-all"@[0]);
    }
}

/// The mode that characters `start .. end` of `text` name.
pub fn parse_mode(text: &str, start: usize, end: usize) -> (mode: Option<RunMode>)
    requires
        start <= end <= text@.len(),
    ensures
        mode == parse_mode_spec(text@.subrange(start as int, end as int)),
{
    if equals_at(text, start, end, "preliminary") {
        Some(RunMode::Preliminary)
    } else if equals_at(text, start, end, "final-cagent") {
        Some(RunMode::FinalCagent)
    } else if equals_at(text, start, end, "final-buildstorm") {
        Some(RunMode::FinalBuildstorm)
    } else if equals_at(text, start, end, "final-buildstorm-diag") {
        Some(RunMode::FinalBuildstormDiag)
    } else if equals_at(text, start, end, "lifecycle-stress") {
        Some(RunMode::LifecycleStress)
    } else if equals_at(text, start, end, "final-all") {
        Some(RunMode::FinalAll)
    } else {
        None
    }
}

/// The mode named by the first `sudoos.oscomp=` or `oscomp.mode=` word among
/// `words` (`Some(None)` when that word names no mode), or `None` when no
/// word sets the mode.
pub open spec fn first_mode_word(s: Seq<char>, ws: Seq<(int, int)>) -> Option<Option<RunMode>>
    decreases ws.len(),
{
    if ws.len() == 0 {
        None
    } else {
        let (start, end) = ws[0];
        if has_prefix_at(s, start, end, "sudoos.oscomp="@) {
            Some(parse_mode_spec(s.subrange(start + "sudoos.oscomp="@.len(), end)))
        } else if has_prefix_at(s, start, end, "oscomp.mode="@) {
            Some(parse_mode_spec(s.subrange(start + "oscomp.mode="@.len(), end)))
        } else {
            first_mode_word(s, ws.drop_first())
        }
    }
}

pub open spec fn mode_from_bootargs_spec(bootargs: Option<Seq<char>>) -> Option<RunMode> {
    match bootargs {
        None => None,
        Some(s) => match first_mode_word(s, words(s)) {
            None => None,
            Some(mode) => mode,
        },
    }
}

/// The mode that the command line asks for: the first `sudoos.oscomp=` or
/// `oscomp.mode=` word decides, also when its value names no mode.
pub fn mode_from_bootargs(bootargs: Option<&str>) -> (mode: Option<RunMode>)
    ensures
        mode == mode_from_bootargs_spec(match bootargs {
            Some(text) => Some(text@),
            None => None,
        }),
{
    let text = match bootargs {
        Some(text) => text,
        None => {
            return None;
        },
    };
    let length = text.unicode_len();
    let ghost s = text@;
    let mut position: usize = 0;
    while position < length
        invariant
            position <= length,
            length == s.len(),
            s == text@,
            bootargs == Some(text),
            first_mode_word(s, words(s)) == first_mode_word(s, words_from(s, position as int)),
        decreases length - position,
    {
        let (start, end) = match next_word(text, length, position) {
            Some(word) => word,
            None => {
                return None;
            },
        };
        let ghost rest = words_from(s, end as int);
        proof {
            assert((seq![(start as int, end as int)] + rest)[0] == (start as int, end as int));
            assert((seq![(start as int, end as int)] + rest).drop_first() =~= rest);
        }
        if starts_with_at(text, start, end, "sudoos.oscomp=") {
            let skip = "sudoos.oscomp=".unicode_len();
            return parse_mode(text, start + skip, end);
        }
        if starts_with_at(text, start, end, "oscomp.mode=") {
            let skip = "oscomp.mode=".unicode_len();
            return parse_mode(text, start + skip, end);
        }
        position = end;
    }
    proof {
        assert(words_from(s, position as int) =~= Seq::<(int, int)>::empty());
    }
    None
}

/// The mode the runner starts: an explicit mode wins; then a final-round
/// image (its marker files exist), then mounted contest storage, both
/// running every final runner; else the preliminary runner.
pub fn select_mode(explicit: Option<RunMode>, final_image: bool, contest_storage_mounted: bool) -> (mode: RunMode)
    ensures
        mode == (match explicit {
            Some(mode) => mode,
            None => if final_image || contest_storage_mounted { RunMode::FinalAll } else { RunMode::Preliminary },
        }),
{
    if let Some(mode) = explicit {
        return mode;
    }
    if final_image {
        return RunMode::FinalAll;
    }
    if contest_storage_mounted {
        return RunMode::FinalAll;
    }
    RunMode::Preliminary
}

/// The files whose presence marks a final-round contest image.
pub fn final_image_markers() -> (paths: Vec<&'static str>)
    ensures
        paths@.len() == 5,
        paths@[0]@ == "/mnt/sdcard/glibc/cagent_testcode.sh"@,
        paths@[1]@ == "/mnt/sdcard/musl/cagent_testcode.sh"@,
        paths@[2]@ == "/mnt/sdcard/glibc/buildstorm_testcode.sh"@,
        paths@[3]@ == "/mnt/sdcard/musl/buildstorm_testcode.sh"@,
        paths@[4]@ == "/mnt/sdcard/work/tgoskits/Cargo.toml"@,
{
    let mut paths: Vec<&'static str> = Vec::new();
    paths.push("/mnt/sdcard/glibc/cagent_testcode.sh");
    paths.push("/mnt/sdcard/musl/cagent_testcode.sh");
    paths.push("/mnt/sdcard/glibc/buildstorm_testcode.sh");
    paths.push("/mnt/sdcard/musl/buildstorm_testcode.sh");
    paths.push("/mnt/sdcard/work/tgoskits/Cargo.toml");
    paths
}

/// Whether the image is a final-round image: any marker file exists
/// (`present[i]` says whether marker `i` exists).
pub fn looks_like_final_image(present: &[bool]) -> (final_image: bool)
    ensures
        final_image == exists|i: int| 0 <= i < present@.len() && #[trigger] present@[i],
{
    let mut i: usize = 0;
    while i < present.len()
        invariant
            i <= present@.len(),
            forall|k: int| 0 <= k < i ==> !(#[trigger] present@[k]),
        decreases present@.len() - i,
    {
        if present[i] {
            return true;
        }
        i = i + 1;
    }
    false
}

/// The mode recorded for the running test, for the watchdog's report.
pub struct ActiveMode {
    mode: Option<&'static str>,
}

impl ActiveMode {
    pub closed spec fn spec_mode(&self) -> Option<Seq<char>> {
        match self.mode {
            Some(mode) => Some(mode@),
            None => None,
        }
    }

    pub fn new() -> (state: ActiveMode)
        ensures
            state.spec_mode() is None,
    {
        ActiveMode { mode: None }
    }
}

pub fn set_active_mode(state: &mut ActiveMode, mode: &'static str)
    ensures
        final(state).spec_mode() == Some(mode@),
{
    state.mode = Some(mode);
}

/// The recorded mode, `unknown` before one is recorded.
pub fn active_mode(state: &ActiveMode) -> (mode: &'static str)
    ensures
        mode@ == (match state.spec_mode() {
            Some(mode) => mode,
            None => "unknown"@,
        }),
{
    match state.mode {
        Some(mode) => mode,
        None => "unknown",
    }
}

/// A command line that is just `oscomp.mode=` followed by a mode's name
/// selects that mode.
pub proof fn lemma_mode_word_selects(mode: RunMode)
    ensures
        mode_from_bootargs_spec(Some("oscomp.mode="@ + mode_name(mode))) == Some(mode),
{
    let key = "oscomp.mode="@;
    let name = mode_name(mode);
    let s = key + name;
    reveal_strlit("oscomp.mode=");
    reveal_strlit("sudoos.oscomp=");
    reveal_strlit("preliminary");
    reveal_strlit("final-cagent");
    reveal_strlit("final-buildstorm");
    reveal_strlit("final-buildstorm-diag");
    reveal_strlit("lifecycle-stress");
    reveal_strlit("final-all");
    lemma_mode_name_parses(mode, mode);
    assert forall|k: int| 0 <= k < s.len() implies !is_space(#[trigger] s[k]) by {
        if k < key.len() {
            assert(s[k] == key[k]);
        } else {
            assert(s[k] == name[k - key.len()]);
        }
    }
    lemma_single_word(s);
    assert(s.subrange(0, key.len() as int) =~= key);
    assert(s.subrange(key.len() as int, s.len() as int) =~= name);
    assert(s[0] != "sudoos.oscomp="@[0]);
    assert(!has_prefix_at(s, 0, s.len() as int, "sudoos.oscomp="@)) by {
        if s.len() >= "sudoos.oscomp="@.len() {
            assert(s.subrange(0, "sudoos.oscomp="@.len() as int)[0] == s[0]);
        }
    }
    assert(first_mode_word(s, seq![(0int, s.len() as int)]) == Some(Some(mode)));
}

} // verus!
