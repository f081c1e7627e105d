//! A generic settings-editor model built from a parsed document: every
//! `key = value` entry becomes one editable setting, its help text gathered
//! from the comment lines immediately above it, and its kind guessed from
//! the key name, the help text and the section name. The guess is an
//! explicitly best-effort heuristic: the file format carries no schema, so
//! a misclassified kind is expected and acceptable.

use vstd::prelude::*;

use crate::ini::{EntryV, Ini, SectionV};
use crate::text::{
    comment_text, comment_text_exec, contains_seq, lower_seq, str_contains, str_eq_lower,
};

verus! {

/// The widget a setting is edited with.
#[derive(Clone, Copy, Debug, PartialEq, Eq, Structural)]
pub enum SettingKind {
    Boolean,
    Text,
    Password,
    Number,
}

/// One editable setting.
pub struct Setting {
    pub name: String,
    pub kind: SettingKind,
    pub value: String,
    pub help: String,
}

/// The settings of one section, in document order.
pub struct SettingsSection {
    pub name: String,
    pub settings: Vec<Setting>,
}

/// Mathematical image of a `Setting`.
#[verifier::ext_equal]
pub struct SettingV {
    pub name: Seq<char>,
    pub kind: SettingKind,
    pub value: Seq<char>,
    pub help: Seq<char>,
}

/// Mathematical image of a `SettingsSection`.
#[verifier::ext_equal]
pub struct SettingsSectionV {
    pub name: Seq<char>,
    pub settings: Seq<SettingV>,
}

impl View for Setting {
    type V = SettingV;

    open spec fn view(&self) -> SettingV {
        SettingV { name: self.name@, kind: self.kind, value: self.value@, help: self.help@ }
    }
}

impl View for SettingsSection {
    type V = SettingsSectionV;

    open spec fn view(&self) -> SettingsSectionV {
        SettingsSectionV {
            name: self.name@,
            settings: self.settings@.map_values(|x: Setting| x@),
        }
    }
}

/// The kind guessed for a key, from its name, the help text above it and
/// the enclosing section's name, each rule tried in order.
pub open spec fn kind_spec(key: Seq<char>, help: Seq<char>, section: Seq<char>) -> SettingKind {
    if contains_seq(key, "password"@) {
        SettingKind::Password
    } else if contains_seq(help, "%"@) {
        SettingKind::Number
    } else if lower_seq(section) == lower_seq("save"@) || lower_seq(section) == lower_seq(
        "language"@,
    ) {
        SettingKind::Text
    } else if contains_seq(help, "2 ="@) {
        SettingKind::Number
    } else if contains_seq(help, "1 ="@) {
        SettingKind::Boolean
    } else if lower_seq(section) == lower_seq("gameplay"@) {
        SettingKind::Boolean
    } else {
        SettingKind::Text
    }
}

/// Guess the kind of a setting; exactly the cascade `kind_spec` describes.
pub fn setting_kind(key: &str, help: &str, section: &str) -> (r: SettingKind)
    ensures
        r == kind_spec(key@, help@, section@),
{
    if str_contains(key, "password") {
        SettingKind::Password
    } else if str_contains(help, "%") {
        SettingKind::Number
    } else if str_eq_lower(section, "save") || str_eq_lower(section, "language") {
        SettingKind::Text
    } else if str_contains(help, "2 =") {
        SettingKind::Number
    } else if str_contains(help, "1 =") {
        SettingKind::Boolean
    } else if str_eq_lower(section, "gameplay") {
        SettingKind::Boolean
    } else {
        SettingKind::Text
    }
}

/// One step of the model fold: a blank line resets the pending help text, a
/// comment extends it, a `key = value` entry emits a setting and resets it.
pub open spec fn fold_step(
    st: (Seq<SettingV>, Seq<char>),
    e: EntryV,
    secname: Seq<char>,
) -> (Seq<SettingV>, Seq<char>) {
    match e {
        EntryV::Blank => (st.0, Seq::<char>::empty()),
        EntryV::Comment(l) => (
            st.0,
            if st.1.len() == 0 {
                comment_text(l)
            } else {
                st.1 + seq!['\n'] + comment_text(l)
            },
        ),
        EntryV::KV { key, value } => (
            st.0.push(
                SettingV { name: key, kind: kind_spec(key, st.1, secname), value, help: st.1 },
            ),
            Seq::<char>::empty(),
        ),
    }
}

/// The settings of a run of entries, with the help text still pending.
pub open spec fn fold_entries(es: Seq<EntryV>, secname: Seq<char>) -> (Seq<SettingV>, Seq<char>)
    decreases es.len(),
{
    if es.len() == 0 {
        (Seq::<SettingV>::empty(), Seq::<char>::empty())
    } else {
        fold_step(fold_entries(es.drop_last(), secname), es.last(), secname)
    }
}

/// The editor model of one section.
pub open spec fn section_model(s: SectionV) -> SettingsSectionV {
    SettingsSectionV { name: s.name, settings: fold_entries(s.entries, s.name).0 }
}

/// The editor model of a whole document.
pub open spec fn settings_model_spec(doc: Seq<SectionV>) -> Seq<SettingsSectionV> {
    doc.map_values(|s: SectionV| section_model(s))
}

/// Build the settings-editor model of a parsed document.
pub fn settings_model(ini: &Ini) -> (r: Vec<SettingsSection>)
    ensures
        r@.map_values(|x: SettingsSection| x@) == settings_model_spec(ini@),
{
    let mut out: Vec<SettingsSection> = Vec::new();
    proof {
        assert(out@.map_values(|x: SettingsSection| x@) =~= settings_model_spec(
            ini@.take(0),
        ));
    }
    let mut i: usize = 0;
    while i < ini.section.len()
        invariant
            0 <= i <= ini.section.len(),
            out@.map_values(|x: SettingsSection| x@) == settings_model_spec(ini@.take(i as int)),
        decreases ini.section.len() - i,
    {
        let s = &ini.section[i];
        let ghost sv = s@;
        let mut settings: Vec<Setting> = Vec::new();
        let mut help = String::new();
        proof {
            assert((settings@.map_values(|x: Setting| x@), help@) =~~= fold_entries(
                sv.entries.take(0),
                sv.name,
            ));
        }
        let mut j: usize = 0;
        while j < s.entry.len()
            invariant
                0 <= j <= s.entry.len(),
                i < ini.section.len(),
                s == &ini.section[i as int],
                sv == s@,
                settings@.map_values(|x: Setting| x@) == fold_entries(
                    sv.entries.take(j as int),
                    sv.name,
                ).0,
                help@ == fold_entries(sv.entries.take(j as int), sv.name).1,
            decreases s.entry.len() - j,
        {
            let ghost st = (settings@.map_values(|x: Setting| x@), help@);
            proof {
                assert(sv.entries.take(j + 1).drop_last() =~= sv.entries.take(j as int));
                assert(sv.entries.take(j + 1).last() == sv.entries[j as int]);
            }
            match &s.entry[j] {
                crate::ini::Entry::Blank => {
                    help = String::new();
                },
                crate::ini::Entry::Comment(l) => {
                    let text = comment_text_exec(l.as_str());
                    if help.as_str().is_empty() {
                        help = text;
                    } else {
                        help.append("\n");
                        help.append(text.as_str());
                        proof {
                            reveal_strlit("\n");
                            assert(help@ =~= st.1 + seq!['\n'] + comment_text(l@));
                        }
                    }
                },
                crate::ini::Entry::KV { key, value } => {
                    let kind = setting_kind(key.as_str(), help.as_str(), s.name.as_str());
                    let setting = Setting {
                        name: key.clone(),
                        kind,
                        value: value.clone(),
                        help: help,
                    };
                    settings.push(setting);
                    help = String::new();
                    proof {
                        assert(settings@.map_values(|x: Setting| x@) =~= st.0.push(
                            SettingV {
                                name: key@,
                                kind: kind_spec(key@, st.1, sv.name),
                                value: value@,
                                help: st.1,
                            },
                        ));
                    }
                },
            }
            j += 1;
        }
        proof {
            assert(sv.entries.take(s.entry.len() as int) =~= sv.entries);
        }
        let ghost pre = out@.map_values(|x: SettingsSection| x@);
        out.push(SettingsSection { name: s.name.clone(), settings });
        proof {
            assert(out@.map_values(|x: SettingsSection| x@) =~~= pre.push(section_model(sv)));
            assert(pre.push(section_model(sv)) =~~= settings_model_spec(ini@.take(i + 1)));
        }
        i += 1;
    }
    proof {
        assert(ini@.take(ini.section.len() as int) =~= ini@);
        assert(settings_model_spec(ini@.take(ini.section.len() as int)) =~~= settings_model_spec(
            ini@,
        ));
    }
    out
}

} // verus!
