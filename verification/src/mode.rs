//! How a pass finds its candidates.
use vstd::prelude::*;

verus! {

/// How a GC pass finds its collection candidates.
///
/// Both modes share the same teardown; they differ only in how the pass is seeded.
#[derive(Clone, Copy, PartialEq, Eq, Debug, Structural)]
pub enum GcMode {
    /// Seed each pass by scanning the entire resident task map for collectible tasks. Cost is
    /// O(resident tasks) per pass, regardless of how much garbage there is.
    Scan,
    /// Seed each pass from the dead list: candidates recorded at the moment change propagation
    /// dropped a task's last reference. Cost is O(garbage) per pass.
    Incremental,
}

/// What the environment says of one variable.
#[derive(Debug)]
pub enum EnvVar {
    /// The variable is not set.
    Unset,
    /// The variable is set, to bytes that are not Unicode.
    NotUnicode,
    /// The variable is set to a text.
    Text(String),
}

impl EnvVar {
    /// Whether the variable is set to `text`.
    pub open spec fn is_text(self, text: Seq<char>) -> bool {
        self matches EnvVar::Text(value) && value@ == text
    }

    /// Whether the variable is set to `text`.
    fn equals(&self, text: &str) -> (b: bool)
        ensures
            b == self.is_text(text@),
    {
        match self {
            EnvVar::Text(value) => *value == text.to_owned(),
            _ => false,
        }
    }
}

/// Whether `TURBO_ENGINE_GC` switches garbage collection on. It is opt-in: any other value, and none
/// at all, leaves it off.
pub open spec fn gc_enabled(gc: EnvVar) -> bool {
    gc.is_text("1"@) || gc.is_text("true"@) || gc.is_text("yes"@)
}

/// Whether `TURBO_ENGINE_GC_MODE` selects a mode, or leaves the choice open.
pub open spec fn mode_known(mode: EnvVar) -> bool {
    mode is Unset || mode.is_text("incremental"@) || mode.is_text("scan"@)
}

/// Whether `TURBO_ENGINE_GC` switches garbage collection on.
fn is_enabled(gc: &EnvVar) -> (b: bool)
    ensures
        b == gc_enabled(*gc),
{
    gc.equals("1") || gc.equals("true") || gc.equals("yes")
}

/// Whether the two variables give a configuration. They do not where garbage collection is switched
/// on and its mode is set to something that is neither `scan` nor `incremental`.
pub fn gc_env_is_valid(gc: &EnvVar, mode: &EnvVar) -> (b: bool)
    ensures
        b == (gc_enabled(*gc) ==> mode_known(*mode)),
{
    if !is_enabled(gc) {
        return true;
    }
    match mode {
        EnvVar::Unset => true,
        _ => mode.equals("incremental") || mode.equals("scan"),
    }
}

/// The GC configuration that `TURBO_ENGINE_GC` and `TURBO_ENGINE_GC_MODE` give: `None` when garbage
/// collection is not switched on, otherwise the selected mode, by default the incremental one.
///
/// An unknown mode is left out only where garbage collection is switched on: where it is not, the
/// mode is never looked at. See [`gc_env_is_valid`].
pub fn gc_mode_from_env(gc: &EnvVar, mode: &EnvVar) -> (selected: Option<GcMode>)
    requires
        gc_enabled(*gc) ==> mode_known(*mode),
    ensures
        selected is None <==> !gc_enabled(*gc),
        selected == Some(GcMode::Incremental) <==> gc_enabled(*gc) && (mode is Unset
            || mode.is_text("incremental"@)),
        selected == Some(GcMode::Scan) <==> gc_enabled(*gc) && mode.is_text("scan"@),
{
    if !is_enabled(gc) {
        return None;
    }
    match mode {
        EnvVar::Unset => Some(GcMode::Incremental),
        _ => {
            proof {
                reveal_strlit("incremental");
                reveal_strlit("scan");
                assert("incremental"@.len() != "scan"@.len());
            }
            if mode.equals("incremental") {
                Some(GcMode::Incremental)
            } else {
                Some(GcMode::Scan)
            }
        },
    }
}

/// A variable is set to a text exactly when its value is that text, letter for letter.
pub proof fn law_text_is_compared_letter_by_letter(value: String, text: Seq<char>)
    ensures
        EnvVar::Text(value).is_text(text) <==> value@ == text,
        !EnvVar::Unset.is_text(text),
        !EnvVar::NotUnicode.is_text(text),
{
}

/// Garbage collection is on for `1`, `true` and `yes`, and for no other value of its variable.
pub proof fn law_gc_is_opt_in(value: String)
    ensures
        gc_enabled(EnvVar::Text(value)) <==> value@ == seq!['1'] || value@ == seq![
            't',
            'r',
            'u',
            'e',
        ] || value@ == seq!['y', 'e', 's'],
        !gc_enabled(EnvVar::Unset),
        !gc_enabled(EnvVar::NotUnicode),
{
    reveal_strlit("1");
    reveal_strlit("true");
    reveal_strlit("yes");
    assert("1"@ =~= seq!['1']);
    assert("true"@ =~= seq!['t', 'r', 'u', 'e']);
    assert("yes"@ =~= seq!['y', 'e', 's']);
}

/// A mode is known if it is left open, or is `scan` or `incremental`, and not otherwise.
pub proof fn law_modes_by_name(value: String)
    ensures
        mode_known(EnvVar::Unset),
        !mode_known(EnvVar::NotUnicode),
        mode_known(EnvVar::Text(value)) <==> value@ == seq!['s', 'c', 'a', 'n'] || value@ == seq![
            'i',
            'n',
            'c',
            'r',
            'e',
            'm',
            'e',
            'n',
            't',
            'a',
            'l',
        ],
{
    reveal_strlit("scan");
    reveal_strlit("incremental");
    assert("scan"@ =~= seq!['s', 'c', 'a', 'n']);
    assert("incremental"@ =~= seq!['i', 'n', 'c', 'r', 'e', 'm', 'e', 'n', 't', 'a', 'l']);
}

} // verus!
