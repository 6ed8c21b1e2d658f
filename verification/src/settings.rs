//! Which previews are wanted, by the language of the text.

use crate::keyed::KeyedList;
use vstd::prelude::*;

verus! {

/// Whether pictures are shown in place of formulas, and in a popover beside them.
#[derive(Debug, Clone, Copy, PartialEq, Eq, Structural)]
pub struct MathPreviewSettings {
    pub inline_enabled: bool,
    pub popover_enabled: bool,
}

impl DeepView for MathPreviewSettings {
    type V = MathPreviewSettings;

    open spec fn deep_view(&self) -> MathPreviewSettings {
        *self
    }
}

impl MathPreviewSettings {
    /// Some preview is wanted.
    pub open spec fn wanted(self) -> bool {
        self.inline_enabled || self.popover_enabled
    }

    /// Whether some preview is wanted.
    pub fn any_enabled(&self) -> (r: bool)
        ensures
            r == self.wanted(),
            r <==> self.inline_enabled || self.popover_enabled,
    {
        self.inline_enabled || self.popover_enabled
    }
}

/// The settings for each language, and those for a language that has none of its own.
/// `None` stands for text without a language.
#[derive(Debug)]
pub struct SettingsTable {
    default: MathPreviewSettings,
    by_language: KeyedList<Option<String>, MathPreviewSettings>,
}

/// What a `SettingsTable` holds.
pub struct SettingsTableView {
    pub default: MathPreviewSettings,
    pub by_language: Map<Option<Seq<char>>, MathPreviewSettings>,
}

impl DeepView for SettingsTable {
    type V = SettingsTableView;

    closed spec fn deep_view(&self) -> SettingsTableView {
        SettingsTableView { default: self.default, by_language: self.by_language.deep_view() }
    }
}

impl SettingsTableView {
    /// The settings for `language`.
    pub open spec fn settings_for(self, language: Option<Seq<char>>) -> MathPreviewSettings {
        if self.by_language.contains_key(language) {
            self.by_language[language]
        } else {
            self.default
        }
    }

    /// Some preview is wanted for some language.
    pub open spec fn wanted(self) -> bool {
        exists|language: Option<Seq<char>>|
            self.by_language.contains_key(language)
                && (#[trigger] self.by_language[language]).wanted()
    }
}

/// The settings that `languages` lists, where the last counts of those for one language.
/// Text without a language has the settings `default` unless it is listed.
pub open spec fn language_settings(
    default: MathPreviewSettings,
    languages: Seq<(Option<Seq<char>>, MathPreviewSettings)>,
) -> Map<Option<Seq<char>>, MathPreviewSettings>
    decreases languages.len(),
{
    if languages.len() == 0 {
        Map::empty().insert(None, default)
    } else {
        language_settings(default, languages.drop_last()).insert(
            languages.last().0,
            languages.last().1,
        )
    }
}

impl SettingsTable {
    /// No language is listed twice.
    pub closed spec fn wf(&self) -> bool {
        self.by_language.wf()
    }

    /// The table of the settings that `languages` lists.
    pub fn new(
        default: MathPreviewSettings,
        languages: Vec<(Option<String>, MathPreviewSettings)>,
    ) -> (r: Self)
        ensures
            r.wf(),
            r.deep_view() == (SettingsTableView {
                default,
                by_language: language_settings(default, languages.deep_view()),
            }),
    {
        let mut by_language: KeyedList<Option<String>, MathPreviewSettings> = KeyedList::new();
        by_language.insert(None, default);
        let ghost listed = languages.deep_view();
        assert(listed.take(0) =~= seq![]);
        for pair in it: languages
            invariant
                by_language.wf(),
                listed == languages.deep_view(),
                it.seq() == languages@,
                by_language.deep_view() == language_settings(default, listed.take(it.index())),
        {
            proof {
                assert(listed.take(it.index() + 1).drop_last() =~= listed.take(it.index()));
                assert(pair.deep_view() == listed[it.index()]);
            }
            by_language.insert(pair.0, pair.1);
        }
        assert(listed.take(listed.len() as int) =~= listed);
        SettingsTable { default, by_language }
    }

    /// The settings for `language`.
    pub fn get(&self, language: &Option<String>) -> (r: MathPreviewSettings)
        requires
            self.wf(),
        ensures
            r == self.deep_view().settings_for(language.deep_view()),
    {
        match self.by_language.get(language) {
            Some(settings) => *settings,
            None => self.default,
        }
    }

    /// Whether some preview is wanted for some language.
    pub fn any_enabled(&self) -> (r: bool)
        requires
            self.wf(),
        ensures
            r == self.deep_view().wanted(),
    {
        let all = self.by_language.values();
        #[verifier::loop_isolation(false)]
        for i in 0..all.len()
            invariant
                forall|j: int| 0 <= j < i ==> !(#[trigger] all@[j]).wanted(),
        {
            if all[i].any_enabled() {
                proof {
                    assert(all.deep_view()[i as int] == all@[i as int]);
                    assert(all.deep_view().contains(all@[i as int]));
                    let by_language = self.deep_view().by_language;
                    let language = choose|language: Option<Seq<char>>|
                        by_language.contains_key(language) && #[trigger] by_language[language]
                            == all@[i as int];
                    assert(by_language[language].wanted());
                }
                return true;
            }
        }
        proof {
            assert forall|language: Option<Seq<char>>|
                self.deep_view().by_language.contains_key(language) implies !(
            #[trigger] self.deep_view().by_language[language]).wanted() by {
                let settings = self.deep_view().by_language[language];
                assert(all.deep_view().contains(settings));
                let i = all.deep_view().index_of(settings);
                assert(all.deep_view()[i] == all@[i]);
            }
        }
        false
    }
}

/// Where no preview is wanted by default, nor for any language that has settings of its own,
/// none is wanted for any language.
pub proof fn law_nothing_wanted(
    default: MathPreviewSettings,
    languages: Seq<(Option<Seq<char>>, MathPreviewSettings)>,
    language: Option<Seq<char>>,
)
    requires
        !default.wanted(),
        !(SettingsTableView {
            default,
            by_language: language_settings(default, languages),
        }).wanted(),
    ensures
        !(SettingsTableView {
            default,
            by_language: language_settings(default, languages),
        }).settings_for(language).wanted(),
{
}

/// A preview is wanted exactly if one of the two is.
pub proof fn law_wanted(settings: MathPreviewSettings)
    ensures
        settings.wanted() <==> settings.inline_enabled || settings.popover_enabled,
        settings.deep_view() == settings,
{
}

/// With no settings listed, the default holds for every language. What is listed last for a
/// language holds for it, and changes nothing for the others.
pub proof fn law_last_listed_counts(
    default: MathPreviewSettings,
    languages: Seq<(Option<Seq<char>>, MathPreviewSettings)>,
    language: Option<Seq<char>>,
    settings: MathPreviewSettings,
    other: Option<Seq<char>>,
)
    ensures
        ({
            let none = SettingsTableView { default, by_language: language_settings(default, seq![]) };
            none.settings_for(language) == default
        }),
        ({
            let before = SettingsTableView {
                default,
                by_language: language_settings(default, languages),
            };
            let after = SettingsTableView {
                default,
                by_language: language_settings(default, languages.push((language, settings))),
            };
            &&& after.settings_for(language) == settings
            &&& other != language ==> after.settings_for(other) == before.settings_for(other)
        }),
{
    assert(languages.push((language, settings)).drop_last() =~= languages);
}

/// Some preview is wanted exactly if one is for some language that has settings of its own.
pub proof fn law_table_wanted(table: SettingsTableView)
    ensures
        table.wanted() <==> exists|language: Option<Seq<char>>|
            table.by_language.contains_key(language) && ((
            #[trigger] table.by_language[language]).inline_enabled
                || table.by_language[language].popover_enabled),
{
    if table.wanted() {
        let language = choose|language: Option<Seq<char>>|
            table.by_language.contains_key(language) && (
            #[trigger] table.by_language[language]).wanted();
        assert(table.by_language[language].wanted());
    }
    if exists|language: Option<Seq<char>>|
        table.by_language.contains_key(language) && ((
        #[trigger] table.by_language[language]).inline_enabled
            || table.by_language[language].popover_enabled) {
        let language = choose|language: Option<Seq<char>>|
            table.by_language.contains_key(language) && ((
            #[trigger] table.by_language[language]).inline_enabled
                || table.by_language[language].popover_enabled);
        assert(table.by_language[language].wanted());
    }
}

/// The languages with settings of their own are those that are listed, and text without one.
pub proof fn law_listed_languages(
    default: MathPreviewSettings,
    languages: Seq<(Option<Seq<char>>, MathPreviewSettings)>,
    language: Option<Seq<char>>,
    settings: MathPreviewSettings,
    other: Option<Seq<char>>,
)
    ensures
        language_settings(default, seq![]).contains_key(other) <==> other is None,
        language_settings(default, languages.push((language, settings))).contains_key(other)
            <==> other == language || language_settings(default, languages).contains_key(other),
{
    assert(languages.push((language, settings)).drop_last() =~= languages);
}

/// A language with settings of its own has those, any other the default.
pub proof fn law_settings_for(table: SettingsTableView, language: Option<Seq<char>>)
    ensures
        table.by_language.contains_key(language) ==> table.settings_for(language)
            == table.by_language[language],
        !table.by_language.contains_key(language) ==> table.settings_for(language)
            == table.default,
{
}

} // verus!
