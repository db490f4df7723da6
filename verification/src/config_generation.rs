//! Application rules and the command scripts generated from them.

use crate::text_order::{
    lemma_text_lt_asymmetric, lemma_text_lt_total, lemma_text_lt_transitive, precedes, text_lt,
};
use vstd::prelude::*;
use vstd::string::*;

verus! {

/// What an application rule matches a window by.
#[derive(Clone, Copy, Debug, PartialEq, Eq, Structural)]
pub enum ApplicationIdentifier {
    Exe,
    Class,
    Title,
    Path,
}

impl ApplicationIdentifier {
    /// The identifier as the command line spells it.
    pub open spec fn name(self) -> Seq<char> {
        match self {
            ApplicationIdentifier::Exe => "exe"@,
            ApplicationIdentifier::Class => "class"@,
            ApplicationIdentifier::Title => "title"@,
            ApplicationIdentifier::Path => "path"@,
        }
    }

    /// The identifier as the command line spells it.
    pub fn as_str(&self) -> (name: &'static str)
        ensures
            name@ == self.name(),
    {
        match self {
            ApplicationIdentifier::Exe => "exe",
            ApplicationIdentifier::Class => "class",
            ApplicationIdentifier::Title => "title",
            ApplicationIdentifier::Path => "path",
        }
    }
}

/// A quirk that an application needs the window manager to know of.
#[derive(Clone, Copy, Debug, PartialEq, Eq, Structural)]
pub enum ApplicationOptions {
    ObjectNameChange,
    Layered,
    TrayAndMultiWindow,
    Force,
    /// Deprecated: no command exists for it.
    BorderOverflow,
}

impl ApplicationOptions {
    /// The command that registers this option for the application matched by `kind` and
    /// `id`. There is none for `BorderOverflow`.
    pub open spec fn raw_command(self, kind: ApplicationIdentifier, id: Seq<char>) -> Seq<char> {
        match self {
            ApplicationOptions::ObjectNameChange => {
                "komorebic.exe identify-object-name-change-application "@ + kind.name() + " \""@
                    + id + "\""@
            },
            ApplicationOptions::Layered => {
                "komorebic.exe identify-layered-application "@ + kind.name() + " \""@ + id + "\""@
            },
            ApplicationOptions::TrayAndMultiWindow => {
                "komorebic.exe identify-tray-application "@ + kind.name() + " \""@ + id + "\""@
            },
            ApplicationOptions::Force => {
                "komorebic.exe manage-rule "@ + kind.name() + " \""@ + id + "\""@
            },
            ApplicationOptions::BorderOverflow => Seq::empty(),
        }
    }

    /// The same command as a hidden `RunWait` call.
    pub open spec fn command(self, kind: ApplicationIdentifier, id: Seq<char>) -> Seq<char> {
        "RunWait('"@ + self.raw_command(kind, id) + "', , \"Hide\")"@
    }

    /// The command that registers this option, as typed at a shell.
    #[must_use]
    pub fn raw_cfgen(&self, kind: &ApplicationIdentifier, id: &str) -> (line: String)
        requires
            !(self is BorderOverflow),
        ensures
            line@ == self.raw_command(*kind, id@),
    {
        let mut line = match self {
            ApplicationOptions::ObjectNameChange => String::from_str(
                "komorebic.exe identify-object-name-change-application ",
            ),
            ApplicationOptions::Layered => String::from_str(
                "komorebic.exe identify-layered-application ",
            ),
            ApplicationOptions::TrayAndMultiWindow => String::from_str(
                "komorebic.exe identify-tray-application ",
            ),
            _ => String::from_str("komorebic.exe manage-rule "),
        };
        line.append(kind.as_str());
        line.append(" \"");
        line.append(id);
        line.append("\"");
        line
    }

    /// The command that registers this option, as a hidden `RunWait` call.
    #[must_use]
    pub fn cfgen(&self, kind: &ApplicationIdentifier, id: &str) -> (line: String)
        requires
            !(self is BorderOverflow),
        ensures
            line@ == self.command(*kind, id@),
    {
        let mut line = String::from_str("RunWait('");
        let raw = self.raw_cfgen(kind, id);
        line.append(raw.as_str());
        line.append("', , \"Hide\")");
        line
    }
}

/// How the text of a rule is compared with what a window reports.
#[derive(Clone, Copy, Debug, PartialEq, Eq, Structural)]
pub enum MatchingStrategy {
    Legacy,
    Equals,
    StartsWith,
    EndsWith,
    Contains,
    Regex,
    DoesNotEndWith,
    DoesNotStartWith,
    DoesNotEqual,
    DoesNotContain,
}

/// The mathematical content of an [`IdWithIdentifier`].
pub struct IdWithIdentifierView {
    pub kind: ApplicationIdentifier,
    pub id: Seq<char>,
    pub matching_strategy: Option<MatchingStrategy>,
}

/// A rule that matches windows by one identifier.
#[derive(Clone, Debug, PartialEq, Eq)]
pub struct IdWithIdentifier {
    pub kind: ApplicationIdentifier,
    pub id: String,
    pub matching_strategy: Option<MatchingStrategy>,
}

impl View for IdWithIdentifier {
    type V = IdWithIdentifierView;

    open spec fn view(&self) -> IdWithIdentifierView {
        IdWithIdentifierView {
            kind: self.kind,
            id: self.id@,
            matching_strategy: self.matching_strategy,
        }
    }
}

/// The mathematical content of a [`MatchingRule`].
pub enum MatchingRuleView {
    Simple(IdWithIdentifierView),
    Composite(Seq<IdWithIdentifierView>),
}

/// One identifier, or several that must all match.
#[derive(Clone, Debug, PartialEq, Eq)]
pub enum MatchingRule {
    Simple(IdWithIdentifier),
    Composite(Vec<IdWithIdentifier>),
}

impl View for MatchingRule {
    type V = MatchingRuleView;

    open spec fn view(&self) -> MatchingRuleView {
        match self {
            MatchingRule::Simple(rule) => MatchingRuleView::Simple(rule@),
            MatchingRule::Composite(rules) => MatchingRuleView::Composite(
                rules@.map_values(|rule: IdWithIdentifier| rule@),
            ),
        }
    }
}

/// A rule that sends matching windows to one workspace of one monitor.
#[derive(Clone, Debug, PartialEq, Eq)]
pub struct WorkspaceMatchingRule {
    pub monitor_index: usize,
    pub workspace_index: usize,
    pub matching_rule: MatchingRule,
    pub initial_only: bool,
}

/// An [`IdWithIdentifier`] with a note for the reader of the configuration.
#[derive(Clone, Debug)]
pub struct IdWithIdentifierAndComment {
    pub kind: ApplicationIdentifier,
    pub id: String,
    pub comment: Option<String>,
    pub matching_strategy: Option<MatchingStrategy>,
}

impl From<IdWithIdentifierAndComment> for IdWithIdentifier {
    /// Drops the comment and keeps the rest.
    fn from(value: IdWithIdentifierAndComment) -> (rule: Self) {
        Self {
            kind: value.kind,
            id: value.id.clone(),
            matching_strategy: value.matching_strategy,
        }
    }
}

impl vstd::std_specs::convert::FromSpecImpl<IdWithIdentifierAndComment> for IdWithIdentifier {
    open spec fn obeys_from_spec() -> bool {
        true
    }

    open spec fn from_spec(value: IdWithIdentifierAndComment) -> Self {
        IdWithIdentifier {
            kind: value.kind,
            id: value.id,
            matching_strategy: value.matching_strategy,
        }
    }
}

/// The mathematical content of an [`ApplicationConfiguration`].
pub struct ApplicationConfigurationView {
    pub name: Seq<char>,
    pub identifier: IdWithIdentifierView,
    pub options: Option<Seq<ApplicationOptions>>,
    pub ignore_identifiers: Option<Seq<MatchingRuleView>>,
}

impl ApplicationConfigurationView {
    /// The strategy an identifier gets when none is written down: `Equals` for an
    /// executable or a path, none for a class or a title.
    pub open spec fn default_strategy(kind: ApplicationIdentifier) -> Option<MatchingStrategy> {
        match kind {
            ApplicationIdentifier::Exe | ApplicationIdentifier::Path => Some(
                MatchingStrategy::Equals,
            ),
            ApplicationIdentifier::Class | ApplicationIdentifier::Title => None,
        }
    }

    /// The same configuration with a missing matching strategy filled in.
    pub open spec fn with_default_strategy(self) -> ApplicationConfigurationView {
        if self.identifier.matching_strategy is None {
            ApplicationConfigurationView {
                identifier: IdWithIdentifierView {
                    matching_strategy: Self::default_strategy(self.identifier.kind),
                    ..self.identifier
                },
                ..self
            }
        } else {
            self
        }
    }

    /// No option of this application is the deprecated `BorderOverflow`.
    pub open spec fn has_commands(self) -> bool {
        match self.options {
            Some(options) => forall|i: int|
                0 <= i < options.len() ==> !(#[trigger] options[i] is BorderOverflow),
            None => true,
        }
    }
}

/// What is known of one application: its name, the rule that identifies it, the options
/// it needs, and the windows of it that are to be left alone.
#[derive(Clone, Debug)]
pub struct ApplicationConfiguration {
    pub name: String,
    pub identifier: IdWithIdentifier,
    pub options: Option<Vec<ApplicationOptions>>,
    pub ignore_identifiers: Option<Vec<MatchingRule>>,
}

impl View for ApplicationConfiguration {
    type V = ApplicationConfigurationView;

    open spec fn view(&self) -> ApplicationConfigurationView {
        ApplicationConfigurationView {
            name: self.name@,
            identifier: self.identifier@,
            options: match self.options {
                Some(options) => Some(options@),
                None => None,
            },
            ignore_identifiers: match self.ignore_identifiers {
                Some(rules) => Some(rules@.map_values(|rule: MatchingRule| rule@)),
                None => None,
            },
        }
    }
}

impl ApplicationConfiguration {
    /// Whether a script can be generated for this application: none of its options is
    /// the deprecated `BorderOverflow`, for which no command exists.
    pub fn has_commands(&self) -> (ok: bool)
        ensures
            ok == self@.has_commands(),
    {
        match &self.options {
            Some(options) => {
                let mut idx: usize = 0;
                while idx < options.len()
                    invariant
                        idx <= options@.len(),
                        self@.options == Some(options@),
                        forall|i: int|
                            0 <= i < idx ==> !(#[trigger] options@[i] is BorderOverflow),
                    decreases options@.len() - idx,
                {
                    if matches!(options[idx], ApplicationOptions::BorderOverflow) {
                        return false;
                    }
                    idx += 1;
                }
                true
            },
            None => true,
        }
    }

    /// Fills in the matching strategy where none is written down: `Equals` for an
    /// executable or a path. A class or a title stays without one.
    pub fn populate_default_matching_strategies(&mut self)
        ensures
            final(self)@ == old(self)@.with_default_strategy(),
    {
        if self.identifier.matching_strategy.is_none() {
            match self.identifier.kind {
                ApplicationIdentifier::Exe | ApplicationIdentifier::Path => {
                    self.identifier.matching_strategy = Some(MatchingStrategy::Equals);
                },
                ApplicationIdentifier::Class | ApplicationIdentifier::Title => {},
            }
        }
    }
}

/// The contents of a list of configurations.
pub open spec fn views(apps: Seq<ApplicationConfiguration>) -> Seq<ApplicationConfigurationView> {
    apps.map_values(|app: ApplicationConfiguration| app@)
}

/// Where an application called `name` goes into a list sorted by name: before the first
/// entry whose name does not come before `name`.
pub open spec fn insertion_point(sorted: Seq<ApplicationConfigurationView>, name: Seq<char>) -> int
    decreases sorted.len(),
{
    if sorted.len() == 0 || !text_lt(sorted[0].name, name) {
        0
    } else {
        1 + insertion_point(sorted.drop_first(), name)
    }
}

/// The applications ordered by name. Applications of one name keep their order.
pub open spec fn sorted_by_name(apps: Seq<ApplicationConfigurationView>) -> Seq<
    ApplicationConfigurationView,
>
    decreases apps.len(),
{
    if apps.len() == 0 {
        apps
    } else {
        let rest = sorted_by_name(apps.drop_first());
        rest.insert(insertion_point(rest, apps[0].name), apps[0])
    }
}

/// The last index of `apps` whose entry is called `name`.
pub open spec fn last_index_named(apps: Seq<ApplicationConfigurationView>, name: Seq<char>)
    -> Option<int>
    decreases apps.len(),
{
    if apps.len() == 0 {
        None
    } else if apps.last().name == name {
        Some(apps.len() - 1)
    } else {
        last_index_named(apps.drop_last(), name)
    }
}

/// `base` with `overrides` applied one after another: an override takes the place of
/// the last entry of `base` that has its name, and is appended when `base` has none.
pub open spec fn merged(
    base: Seq<ApplicationConfigurationView>,
    overrides: Seq<ApplicationConfigurationView>,
) -> Seq<ApplicationConfigurationView>
    decreases overrides.len(),
{
    if overrides.len() == 0 {
        base
    } else {
        let earlier = merged(base, overrides.drop_last());
        let entry = overrides.last();
        match last_index_named(base, entry.name) {
            Some(idx) => earlier.update(idx, entry),
            None => earlier.push(entry),
        }
    }
}

/// Every application with its missing matching strategy filled in.
pub open spec fn with_default_strategies(apps: Seq<ApplicationConfigurationView>) -> Seq<
    ApplicationConfigurationView,
> {
    apps.map_values(|app: ApplicationConfigurationView| app.with_default_strategy())
}

/// The first `idx` entries that come before `name` put the insertion point at `idx` once
/// the entry at `idx`, if there is one, does not.
proof fn lemma_insertion_point(sorted: Seq<ApplicationConfigurationView>, name: Seq<char>, idx: int)
    requires
        0 <= idx <= sorted.len(),
        forall|i: int| 0 <= i < idx ==> text_lt(#[trigger] sorted[i].name, name),
        idx < sorted.len() ==> !text_lt(sorted[idx].name, name),
    ensures
        insertion_point(sorted, name) == idx,
    decreases idx,
{
    if idx > 0 {
        let rest = sorted.drop_first();
        assert forall|i: int| 0 <= i < idx - 1 implies text_lt(#[trigger] rest[i].name, name) by {
            assert(rest[i] == sorted[i + 1]);
        }
        lemma_insertion_point(rest, name, idx - 1);
    }
}

/// The last entry called `name` depends on the names alone.
proof fn lemma_last_index_named_by_names(
    a: Seq<ApplicationConfigurationView>,
    b: Seq<ApplicationConfigurationView>,
    name: Seq<char>,
)
    requires
        a.len() == b.len(),
        forall|i: int| 0 <= i < a.len() ==> (#[trigger] a[i]).name == b[i].name,
    ensures
        last_index_named(a, name) == last_index_named(b, name),
    decreases a.len(),
{
    if a.len() > 0 {
        assert(a.last().name == b.last().name);
        lemma_last_index_named_by_names(a.drop_last(), b.drop_last(), name);
    }
}

/// An index found by name lies in the list and names an entry of that name.
pub proof fn lemma_last_index_named(apps: Seq<ApplicationConfigurationView>, name: Seq<char>)
    ensures
        match last_index_named(apps, name) {
            Some(idx) => {
                &&& 0 <= idx < apps.len()
                &&& apps[idx].name == name
                &&& forall|i: int| idx < i < apps.len() ==> (#[trigger] apps[i]).name != name
            },
            None => forall|i: int| 0 <= i < apps.len() ==> (#[trigger] apps[i]).name != name,
        },
    decreases apps.len(),
{
    if apps.len() > 0 && apps.last().name != name {
        lemma_last_index_named(apps.drop_last(), name);
        assert forall|i: int| 0 <= i < apps.len() - 1 implies #[trigger] apps[i]
            == apps.drop_last()[i] by {}
    }
}

/// Merging keeps the length of the base or grows it, and keeps the name at every index
/// of the base.
pub proof fn lemma_merged_keeps_names(
    base: Seq<ApplicationConfigurationView>,
    overrides: Seq<ApplicationConfigurationView>,
)
    ensures
        merged(base, overrides).len() >= base.len(),
        merged(base, overrides).len() <= base.len() + overrides.len(),
        forall|i: int|
            0 <= i < base.len() ==> (#[trigger] merged(base, overrides)[i]).name == base[i].name,
    decreases overrides.len(),
{
    if overrides.len() > 0 {
        lemma_merged_keeps_names(base, overrides.drop_last());
        lemma_last_index_named(base, overrides.last().name);
    }
}

/// The texts of a list of lines.
pub open spec fn texts(lines: Seq<String>) -> Seq<Seq<char>> {
    lines.map_values(|line: String| line@)
}

/// The applications a script is generated from: the base list, with the overrides
/// merged in where there are any.
pub open spec fn configured(
    base: Seq<ApplicationConfigurationView>,
    overrides: Option<Seq<ApplicationConfigurationView>>,
) -> Seq<ApplicationConfigurationView> {
    match overrides {
        Some(overrides) => merged(base, overrides),
        None => base,
    }
}

/// The kind of script to generate.
#[derive(Clone, Copy, Debug, PartialEq, Eq, Structural)]
pub enum Script {
    /// A PowerShell script: bare commands, comments behind `#`.
    Pwsh,
    /// An AutoHotkey script: hidden `RunWait` calls, comments behind `;`.
    Ahk,
}

impl Script {
    /// The first line of the script.
    pub open spec fn header(self) -> Seq<char> {
        match self {
            Script::Pwsh => "# Generated by komorebic.exe"@,
            Script::Ahk => "; Generated by komorebic.exe"@,
        }
    }

    /// The comment line that holds `text`.
    pub open spec fn comment(self, text: Seq<char>) -> Seq<char> {
        match self {
            Script::Pwsh => "# "@ + text,
            Script::Ahk => "; "@ + text,
        }
    }

    /// The note that goes before the command of a tray application.
    pub open spec fn tray_note(self) -> Seq<char> {
        match self {
            Script::Pwsh => "# If you have disabled minimize/close to tray for this application, you can delete/comment out the next line"@,
            Script::Ahk => "; If you have disabled minimize/close to tray for this application, you can delete/comment out the next line"@,
        }
    }

    /// The line that registers `option` for the application matched by `kind` and `id`.
    pub open spec fn option_line(
        self,
        option: ApplicationOptions,
        kind: ApplicationIdentifier,
        id: Seq<char>,
    ) -> Seq<char> {
        match self {
            Script::Pwsh => option.raw_command(kind, id),
            Script::Ahk => option.command(kind, id),
        }
    }

    /// The line that tells the window manager to leave the windows matched by `rule`
    /// alone.
    pub open spec fn ignore_line(self, rule: IdWithIdentifierView) -> Seq<char> {
        match self {
            Script::Pwsh => "komorebic.exe float-rule "@ + rule.kind.name() + " \""@ + rule.id
                + "\""@,
            Script::Ahk => "RunWait('komorebic.exe float-rule "@ + rule.kind.name() + " \""@
                + rule.id + "\"', , \"Hide\")"@,
        }
    }

    /// One line per option, in order; the line of a tray application has the note
    /// before it.
    pub open spec fn option_lines(
        self,
        options: Seq<ApplicationOptions>,
        kind: ApplicationIdentifier,
        id: Seq<char>,
    ) -> Seq<Seq<char>>
        decreases options.len(),
    {
        if options.len() == 0 {
            Seq::empty()
        } else {
            let earlier = self.option_lines(options.drop_last(), kind, id);
            let line = self.option_line(options.last(), kind, id);
            if options.last() is TrayAndMultiWindow {
                earlier.push(self.tray_note()).push(line)
            } else {
                earlier.push(line)
            }
        }
    }

    /// The lines for the simple rules among `rules`, in order, but for those whose line
    /// is in `seen` or was made by an earlier rule. Composite rules get no line.
    pub open spec fn ignore_lines(self, rules: Seq<MatchingRuleView>, seen: Seq<Seq<char>>) -> Seq<
        Seq<char>,
    >
        decreases rules.len(),
    {
        if rules.len() == 0 {
            Seq::empty()
        } else {
            let earlier = self.ignore_lines(rules.drop_last(), seen);
            match rules.last() {
                MatchingRuleView::Simple(rule) => {
                    if (seen + earlier).contains(self.ignore_line(rule)) {
                        earlier
                    } else {
                        earlier.push(self.ignore_line(rule))
                    }
                },
                MatchingRuleView::Composite(_) => earlier,
            }
        }
    }

    /// The ignore lines of one application that `seen` does not hold yet.
    pub open spec fn new_ignore_lines(self, app: ApplicationConfigurationView, seen: Seq<Seq<char>>)
        -> Seq<Seq<char>> {
        match app.ignore_identifiers {
            Some(rules) => self.ignore_lines(rules, seen),
            None => Seq::empty(),
        }
    }

    /// The block of one application: its name as a comment, its option lines, its new
    /// ignore lines, and an empty line.
    pub open spec fn application_lines(self, app: ApplicationConfigurationView, seen: Seq<Seq<char>>)
        -> Seq<Seq<char>> {
        let options = match app.options {
            Some(options) => self.option_lines(options, app.identifier.kind, app.identifier.id),
            None => Seq::empty(),
        };
        seq![self.comment(app.name)] + options + self.new_ignore_lines(app, seen) + seq![
            Seq::<char>::empty(),
        ]
    }

    /// Every ignore line made for `apps`, in order. None occurs twice.
    pub open spec fn ignored(self, apps: Seq<ApplicationConfigurationView>) -> Seq<Seq<char>>
        decreases apps.len(),
    {
        if apps.len() == 0 {
            Seq::empty()
        } else {
            let earlier = self.ignored(apps.drop_last());
            earlier + self.new_ignore_lines(apps.last(), earlier)
        }
    }

    /// The blocks of `apps`, in order.
    pub open spec fn body(self, apps: Seq<ApplicationConfigurationView>) -> Seq<Seq<char>>
        decreases apps.len(),
    {
        if apps.len() == 0 {
            Seq::empty()
        } else {
            self.body(apps.drop_last()) + self.application_lines(
                apps.last(),
                self.ignored(apps.drop_last()),
            )
        }
    }

    /// The whole script for `apps`: the header, an empty line, and the blocks of the
    /// applications ordered by name.
    pub open spec fn lines(self, apps: Seq<ApplicationConfigurationView>) -> Seq<Seq<char>> {
        seq![self.header(), Seq::<char>::empty()] + self.body(sorted_by_name(apps))
    }
}

/// The contents of the overrides, where there are any.
pub open spec fn overrides_views(overrides: Option<Vec<ApplicationConfiguration>>) -> Option<
    Seq<ApplicationConfigurationView>,
> {
    match overrides {
        Some(overrides) => Some(views(overrides@)),
        None => None,
    }
}

/// The insertion point lies in the list or at its end.
pub proof fn lemma_insertion_point_bounds(sorted: Seq<ApplicationConfigurationView>, name: Seq<char>)
    ensures
        0 <= insertion_point(sorted, name) <= sorted.len(),
    decreases sorted.len(),
{
    if sorted.len() > 0 && text_lt(sorted[0].name, name) {
        lemma_insertion_point_bounds(sorted.drop_first(), name);
    }
}

/// Ordering by name drops and invents nothing: the result has the length of the list,
/// and each of its entries is an entry of the list.
pub proof fn lemma_sorted_members(apps: Seq<ApplicationConfigurationView>)
    ensures
        sorted_by_name(apps).len() == apps.len(),
        forall|i: int|
            0 <= i < apps.len() ==> apps.contains(#[trigger] sorted_by_name(apps)[i]),
    decreases apps.len(),
{
    if apps.len() > 0 {
        let rest = sorted_by_name(apps.drop_first());
        let at = insertion_point(rest, apps[0].name);
        lemma_sorted_members(apps.drop_first());
        lemma_insertion_point_bounds(rest, apps[0].name);
        let sorted = sorted_by_name(apps);
        assert forall|i: int| 0 <= i < apps.len() implies apps.contains(#[trigger] sorted[i]) by {
            if i == at {
                assert(sorted[i] == apps[0]);
            } else {
                let j = if i < at {
                    i
                } else {
                    i - 1
                };
                assert(sorted[i] == rest[j]);
                assert(apps.drop_first().contains(rest[j]));
                let k = choose|k: int|
                    0 <= k < apps.drop_first().len() && apps.drop_first()[k] == rest[j];
                assert(apps[k + 1] == rest[j]);
            }
        }
    }
}

/// No entry comes before an earlier one: the names never go down.
pub open spec fn is_sorted_by_name(apps: Seq<ApplicationConfigurationView>) -> bool {
    forall|i: int, j: int|
        0 <= i < j < apps.len() ==> !text_lt(#[trigger] apps[j].name, #[trigger] apps[i].name)
}

/// Every entry before the insertion point comes before `name`, and the entry at the
/// insertion point does not.
pub proof fn lemma_insertion_point_splits(sorted: Seq<ApplicationConfigurationView>, name: Seq<char>)
    ensures
        0 <= insertion_point(sorted, name) <= sorted.len(),
        forall|i: int|
            0 <= i < insertion_point(sorted, name) ==> text_lt(#[trigger] sorted[i].name, name),
        insertion_point(sorted, name) < sorted.len() ==> !text_lt(
            sorted[insertion_point(sorted, name)].name,
            name,
        ),
    decreases sorted.len(),
{
    if sorted.len() > 0 && text_lt(sorted[0].name, name) {
        let rest = sorted.drop_first();
        lemma_insertion_point_splits(rest, name);
        assert forall|i: int| 0 <= i < insertion_point(sorted, name) implies text_lt(
            #[trigger] sorted[i].name,
            name,
        ) by {
            if i > 0 {
                assert(sorted[i] == rest[i - 1]);
            }
        }
    }
}

/// Ordering by name gives a list whose names never go down.
pub proof fn lemma_sorted_by_name_is_sorted(apps: Seq<ApplicationConfigurationView>)
    ensures
        is_sorted_by_name(sorted_by_name(apps)),
    decreases apps.len(),
{
    if apps.len() > 0 {
        let rest = sorted_by_name(apps.drop_first());
        let entry = apps[0];
        let at = insertion_point(rest, entry.name);
        let sorted = sorted_by_name(apps);
        lemma_sorted_by_name_is_sorted(apps.drop_first());
        lemma_insertion_point_splits(rest, entry.name);
        assert forall|i: int, j: int| 0 <= i < j < sorted.len() implies !text_lt(
            #[trigger] sorted[j].name,
            #[trigger] sorted[i].name,
        ) by {
            if i == at {
                // The new entry against one behind it.
                let behind = rest[j - 1];
                assert(sorted[j] == behind);
                if text_lt(behind.name, entry.name) {
                    lemma_text_lt_total(rest[at].name, entry.name);
                    if text_lt(entry.name, rest[at].name) {
                        lemma_text_lt_transitive(behind.name, entry.name, rest[at].name);
                    }
                    assert(text_lt(behind.name, rest[at].name));
                    if j - 1 > at {
                        assert(!text_lt(rest[j - 1].name, rest[at].name));
                    } else {
                        crate::text_order::lemma_text_lt_irreflexive(behind.name);
                    }
                }
            } else if j == at {
                // One in front of the new entry against it.
                assert(sorted[i] == rest[i]);
                lemma_text_lt_asymmetric(rest[i].name, entry.name);
            } else {
                let from_i = if i < at {
                    i
                } else {
                    i - 1
                };
                let from_j = if j < at {
                    j
                } else {
                    j - 1
                };
                assert(sorted[i] == rest[from_i] && sorted[j] == rest[from_j]);
                assert(!text_lt(rest[from_j].name, rest[from_i].name));
            }
        }
    }
}

/// Ordering by name rearranges: every application occurs as often as before.
pub proof fn lemma_sorted_by_name_permutes(apps: Seq<ApplicationConfigurationView>)
    ensures
        sorted_by_name(apps).to_multiset() == apps.to_multiset(),
    decreases apps.len(),
{
    if apps.len() > 0 {
        let rest = sorted_by_name(apps.drop_first());
        lemma_sorted_by_name_permutes(apps.drop_first());
        lemma_insertion_point_bounds(rest, apps[0].name);
        vstd::seq_lib::to_multiset_insert(rest, insertion_point(rest, apps[0].name), apps[0]);
        vstd::seq_lib::to_multiset_insert(apps.drop_first(), 0, apps[0]);
        assert(apps.drop_first().insert(0, apps[0]) =~= apps);
    }
}

/// Applications of one name keep their order: picking out one name after ordering
/// gives what picking it out before gives.
pub proof fn lemma_sorted_by_name_is_stable(apps: Seq<ApplicationConfigurationView>, name: Seq<char>)
    ensures
        sorted_by_name(apps).filter(|app: ApplicationConfigurationView| app.name == name)
            == apps.filter(|app: ApplicationConfigurationView| app.name == name),
    decreases apps.len(),
{
    let named = |app: ApplicationConfigurationView| app.name == name;
    if apps.len() > 0 {
        let tail = apps.drop_first();
        let rest = sorted_by_name(tail);
        let entry = apps[0];
        let at = insertion_point(rest, entry.name);
        lemma_sorted_by_name_is_stable(tail, name);
        lemma_sorted_by_name_is_sorted(tail);
        lemma_insertion_point_splits(rest, entry.name);
        let front = rest.take(at);
        let back = rest.skip(at);
        assert(rest =~= front + back);
        assert(rest.insert(at, entry) =~= front + (seq![entry] + back));
        assert(apps =~= seq![entry] + tail);
        Seq::filter_distributes_over_add(front, back, named);
        Seq::filter_distributes_over_add(front, seq![entry] + back, named);
        Seq::filter_distributes_over_add(seq![entry], back, named);
        Seq::filter_distributes_over_add(seq![entry], tail, named);
        if entry.name == name {
            // Every entry in front of the insertion point has another name.
            assert forall|i: int| 0 <= i < front.len() implies !named(#[trigger] front[i]) by {
                assert(front[i] == rest[i]);
                crate::text_order::lemma_text_lt_irreflexive(name);
            }
            front.lemma_all_neg_filter_empty(named);
            assert(front.filter(named) =~= Seq::empty());
            assert(front.filter(named) + (seq![entry].filter(named) + back.filter(named))
                =~= seq![entry].filter(named) + (front.filter(named) + back.filter(named)));
        } else {
            seq![entry].lemma_all_neg_filter_empty(named);
            assert(seq![entry].filter(named) =~= Seq::empty());
            assert(front.filter(named) + (seq![entry].filter(named) + back.filter(named))
                =~= seq![entry].filter(named) + (front.filter(named) + back.filter(named)));
        }
    } else {
        reveal(Seq::filter);
    }
}

/// The ignore lines made for a list of rules are new: together with the lines seen
/// before, none occurs twice.
pub proof fn lemma_ignore_lines_are_new(
    script: Script,
    rules: Seq<MatchingRuleView>,
    seen: Seq<Seq<char>>,
)
    requires
        seen.no_duplicates(),
    ensures
        (seen + script.ignore_lines(rules, seen)).no_duplicates(),
    decreases rules.len(),
{
    if rules.len() == 0 {
        assert(seen + script.ignore_lines(rules, seen) =~= seen);
    } else {
        let earlier = script.ignore_lines(rules.drop_last(), seen);
        lemma_ignore_lines_are_new(script, rules.drop_last(), seen);
        if let MatchingRuleView::Simple(rule) = rules.last() {
            let line = script.ignore_line(rule);
            if !(seen + earlier).contains(line) {
                assert(seen + earlier.push(line) =~= (seen + earlier).push(line));
                assert forall|i: int, j: int|
                    0 <= i < j < (seen + earlier).push(line).len() implies (seen + earlier).push(
                    line,
                )[i] != (seen + earlier).push(line)[j] by {
                    if j == (seen + earlier).len() {
                        assert((seen + earlier)[i] != line);
                    }
                }
            }
        }
    }
}

/// No ignore line is written twice into one script.
pub proof fn lemma_ignored_no_duplicates(script: Script, apps: Seq<ApplicationConfigurationView>)
    ensures
        script.ignored(apps).no_duplicates(),
    decreases apps.len(),
{
    if apps.len() > 0 {
        let earlier = script.ignored(apps.drop_last());
        lemma_ignored_no_duplicates(script, apps.drop_last());
        match apps.last().ignore_identifiers {
            Some(rules) => lemma_ignore_lines_are_new(script, rules, earlier),
            None => {
                assert(earlier + Seq::<Seq<char>>::empty() =~= earlier);
            },
        }
    }
}

/// A script opens with its header and an empty line, and has a block of at least two
/// lines for every application.
pub proof fn lemma_script_shape(script: Script, apps: Seq<ApplicationConfigurationView>)
    ensures
        script.lines(apps).len() >= 2 + 2 * apps.len(),
        script.lines(apps)[0] == script.header(),
        script.lines(apps)[1] == Seq::<char>::empty(),
        script.lines(Seq::empty()) == seq![script.header(), Seq::<char>::empty()],
{
    lemma_sorted_members(apps);
    lemma_body_len(script, sorted_by_name(apps));
    assert(sorted_by_name(Seq::<ApplicationConfigurationView>::empty()).len() == 0);
    assert(script.lines(Seq::empty()) =~= seq![script.header(), Seq::<char>::empty()]);
}

/// The blocks of a list of applications hold at least two lines each.
proof fn lemma_body_len(script: Script, apps: Seq<ApplicationConfigurationView>)
    ensures
        script.body(apps).len() >= 2 * apps.len(),
    decreases apps.len(),
{
    if apps.len() > 0 {
        lemma_body_len(script, apps.drop_last());
    }
}

/// The unit that the generators of configuration hang on.
#[derive(Clone, Copy, Debug)]
pub struct ApplicationConfigurationGenerator;

impl ApplicationConfigurationGenerator {
    /// The last index among the first `limit` entries of `apps` whose entry is called
    /// `name`.
    fn find_last_named(apps: &Vec<ApplicationConfiguration>, limit: usize, name: &String) -> (found:
        Option<usize>)
        requires
            limit <= apps@.len(),
        ensures
            crate::container::as_index(found) == last_index_named(
                views(apps@).take(limit as int),
                name@,
            ),
    {
        let mut replace_idx: Option<usize> = None;
        let mut idx: usize = 0;
        while idx < limit
            invariant
                idx <= limit <= apps@.len(),
                crate::container::as_index(replace_idx) == last_index_named(
                    views(apps@).take(idx as int),
                    name@,
                ),
            decreases limit - idx,
        {
            if apps[idx].name == *name {
                replace_idx = Some(idx);
            }
            proof {
                let upto = views(apps@).take(idx + 1);
                assert(upto.drop_last() =~= views(apps@).take(idx as int));
                assert(upto.last() == apps@[idx as int]@);
            }
            idx += 1;
        }
        replace_idx
    }

    /// Applies `overrides` to `base` one after another: an override takes the place of
    /// the last entry of `base` that has its name, and is appended when `base` has none.
    pub fn merge(base: Vec<ApplicationConfiguration>, overrides: Vec<ApplicationConfiguration>) -> (all:
        Vec<ApplicationConfiguration>)
        ensures
            views(all@) == merged(views(base@), views(overrides@)),
    {
        let base_len = base.len();
        let ghost source = overrides@;
        let mut final_cfgen = base;
        for entry in it: overrides
            invariant
                base_len == base@.len(),
                it.seq() == source,
                views(final_cfgen@) == merged(views(base@), views(source).take(it.index() as int)),
        {
            proof {
                let done = it.index() as int;
                assert(entry@ == views(source)[done]);
                lemma_merged_keeps_names(views(base@), views(source).take(done));
                lemma_last_index_named_by_names(
                    views(final_cfgen@).take(base_len as int),
                    views(base@),
                    entry@.name,
                );
                lemma_last_index_named(views(base@), entry@.name);
                assert(views(source).take(done + 1).drop_last() =~= views(source).take(done));
            }
            let ghost before = views(final_cfgen@);
            match Self::find_last_named(&final_cfgen, base_len, &entry.name) {
                None => {
                    final_cfgen.push(entry);
                    assert(views(final_cfgen@) =~= before.push(entry@));
                },
                Some(idx) => {
                    final_cfgen[idx] = entry;
                    assert(views(final_cfgen@) =~= before.update(idx as int, entry@));
                },
            }
        }
        assert(views(source).take(source.len() as int) =~= views(source));
        final_cfgen
    }

    /// Orders the applications by name. Applications of one name keep their order.
    pub fn sort_by_name(apps: Vec<ApplicationConfiguration>) -> (sorted: Vec<ApplicationConfiguration>)
        ensures
            views(sorted@) == sorted_by_name(views(apps@)),
    {
        let ghost wanted = views(apps@);
        let mut apps = apps;
        let mut sorted: Vec<ApplicationConfiguration> = Vec::new();
        assert(wanted.skip(wanted.len() as int) =~= Seq::empty());
        while apps.len() > 0
            invariant
                views(apps@) == wanted.take(apps@.len() as int),
                apps@.len() <= wanted.len(),
                views(sorted@) == sorted_by_name(wanted.skip(apps@.len() as int)),
            decreases apps@.len(),
        {
            let ghost left = apps@.len();
            let ghost last = views(apps@)[left - 1];
            let app = apps.pop().unwrap();
            let mut idx: usize = 0;
            while idx < sorted.len() && precedes(sorted[idx].name.as_str(), app.name.as_str())
                invariant
                    idx <= sorted@.len(),
                    forall|i: int|
                        0 <= i < idx ==> text_lt(#[trigger] views(sorted@)[i].name, app@.name),
                decreases sorted@.len() - idx,
            {
                idx += 1;
            }
            proof {
                lemma_insertion_point(views(sorted@), app@.name, idx as int);
                assert(app@ == last && last == wanted[left - 1]);
                assert(wanted.skip(left - 1).drop_first() =~= wanted.skip(left as int));
                assert(views(apps@) =~= wanted.take(left - 1));
            }
            let ghost before = views(sorted@);
            sorted.insert(idx, app);
            assert(views(sorted@) =~= before.insert(idx as int, wanted[left - 1]));
        }
        assert(wanted.skip(0) =~= wanted);
        sorted
    }

    /// Fills in the missing matching strategies and orders the applications by name.
    pub fn format(apps: Vec<ApplicationConfiguration>) -> (formatted: Vec<ApplicationConfiguration>)
        ensures
            views(formatted@) == sorted_by_name(with_default_strategies(views(apps@))),
    {
        let ghost wanted = views(apps@);
        let mut cfgen = apps;
        let mut idx: usize = 0;
        while idx < cfgen.len()
            invariant
                idx <= cfgen@.len(),
                cfgen@.len() == wanted.len(),
                forall|i: int|
                    0 <= i < idx ==> (#[trigger] cfgen@[i])@ == wanted[i].with_default_strategy(),
                forall|i: int| idx <= i < cfgen@.len() ==> (#[trigger] cfgen@[i])@ == wanted[i],
            decreases cfgen@.len() - idx,
        {
            let ghost before = cfgen@;
            cfgen[idx].populate_default_matching_strategies();
            assert(forall|i: int|
                0 <= i < cfgen@.len() && i != idx ==> #[trigger] cfgen@[i] == before[i]);
            idx += 1;
        }
        assert(views(cfgen@) =~= with_default_strategies(wanted));
        Self::sort_by_name(cfgen)
    }
    /// Whether `lines` holds a line with the text of `line`.
    fn contains_line(lines: &Vec<String>, line: &String) -> (found: bool)
        ensures
            found == texts(lines@).contains(line@),
    {
        let mut idx: usize = 0;
        while idx < lines.len()
            invariant
                idx <= lines@.len(),
                forall|i: int| 0 <= i < idx ==> #[trigger] texts(lines@)[i] != line@,
            decreases lines@.len() - idx,
        {
            if lines[idx] == *line {
                assert(texts(lines@)[idx as int] == line@);
                return true;
            }
            idx += 1;
        }
        false
    }

    /// The line that tells the window manager to leave the windows matched by `rule`
    /// alone.
    fn ignore_rule(script: Script, rule: &IdWithIdentifier) -> (line: String)
        ensures
            line@ == script.ignore_line(rule@),
    {
        let mut line = match script {
            Script::Pwsh => String::from_str("komorebic.exe float-rule "),
            Script::Ahk => String::from_str("RunWait('komorebic.exe float-rule "),
        };
        line.append(rule.kind.as_str());
        line.append(" \"");
        line.append(rule.id.as_str());
        match script {
            Script::Pwsh => line.append("\""),
            Script::Ahk => line.append("\"', , \"Hide\")"),
        }
        line
    }

    /// Appends the option lines of one application to `lines`.
    fn push_option_lines(
        lines: &mut Vec<String>,
        script: Script,
        options: &Vec<ApplicationOptions>,
        kind: &ApplicationIdentifier,
        id: &str,
    )
        requires
            forall|i: int| 0 <= i < options@.len() ==> !(#[trigger] options@[i] is BorderOverflow),
        ensures
            texts(final(lines)@) == texts(old(lines)@) + script.option_lines(options@, *kind, id@),
    {
        let mut idx: usize = 0;
        assert(options@.take(0) =~= Seq::empty());
        assert(texts(lines@) =~= texts(old(lines)@) + Seq::<Seq<char>>::empty());
        while idx < options.len()
            invariant
                idx <= options@.len(),
                forall|i: int|
                    0 <= i < options@.len() ==> !(#[trigger] options@[i] is BorderOverflow),
                texts(lines@) == texts(old(lines)@) + script.option_lines(
                    options@.take(idx as int),
                    *kind,
                    id@,
                ),
            decreases options@.len() - idx,
        {
            let opt = options[idx];
            let ghost earlier = script.option_lines(options@.take(idx as int), *kind, id@);
            let ghost upto = options@.take(idx + 1);
            assert(upto.drop_last() =~= options@.take(idx as int));
            assert(upto.last() == opt);
            if matches!(opt, ApplicationOptions::TrayAndMultiWindow) {
                let ghost before = texts(lines@);
                let note = match script {
                    Script::Pwsh => String::from_str(
                        "# If you have disabled minimize/close to tray for this application, you can delete/comment out the next line",
                    ),
                    Script::Ahk => String::from_str(
                        "; If you have disabled minimize/close to tray for this application, you can delete/comment out the next line",
                    ),
                };
                lines.push(note);
                assert(texts(lines@) =~= before.push(script.tray_note()));
            }
            let ghost before = texts(lines@);
            let line = match script {
                Script::Pwsh => opt.raw_cfgen(kind, id),
                Script::Ahk => opt.cfgen(kind, id),
            };
            lines.push(line);
            assert(texts(lines@) =~= before.push(script.option_line(opt, *kind, id@)));
            idx += 1;
            assert(texts(lines@) =~= texts(old(lines)@) + script.option_lines(upto, *kind, id@));
        }
        assert(options@.take(idx as int) =~= options@);
    }

    /// Appends to `lines` the ignore lines of one application that were not made
    /// before, and notes them in `ignore_rules`.
    fn push_ignore_lines(
        lines: &mut Vec<String>,
        ignore_rules: &mut Vec<String>,
        script: Script,
        rules: &Vec<MatchingRule>,
    )
        ensures
            texts(final(lines)@) == texts(old(lines)@) + script.ignore_lines(
                rules@.map_values(|rule: MatchingRule| rule@),
                texts(old(ignore_rules)@),
            ),
            texts(final(ignore_rules)@) == texts(old(ignore_rules)@) + script.ignore_lines(
                rules@.map_values(|rule: MatchingRule| rule@),
                texts(old(ignore_rules)@),
            ),
    {
        let ghost all = rules@.map_values(|rule: MatchingRule| rule@);
        let ghost seen = texts(ignore_rules@);
        let mut idx: usize = 0;
        assert(all.take(0) =~= Seq::empty());
        assert(texts(lines@) =~= texts(old(lines)@) + Seq::<Seq<char>>::empty());
        assert(texts(ignore_rules@) =~= seen + Seq::<Seq<char>>::empty());
        while idx < rules.len()
            invariant
                idx <= rules@.len(),
                all == rules@.map_values(|rule: MatchingRule| rule@),
                seen == texts(old(ignore_rules)@),
                texts(lines@) == texts(old(lines)@) + script.ignore_lines(
                    all.take(idx as int),
                    seen,
                ),
                texts(ignore_rules@) == seen + script.ignore_lines(all.take(idx as int), seen),
            decreases rules@.len() - idx,
        {
            let ghost earlier = script.ignore_lines(all.take(idx as int), seen);
            let ghost upto = all.take(idx + 1);
            assert(upto.drop_last() =~= all.take(idx as int));
            assert(upto.last() == rules@[idx as int]@);
            if let MatchingRule::Simple(float) = &rules[idx] {
                assert(upto.last() == MatchingRuleView::Simple(float@));
                let float_rule = Self::ignore_rule(script, float);
                // A rule that was written out once is not written out again.
                if !Self::contains_line(ignore_rules, &float_rule) {
                    let ghost lines_before = texts(lines@);
                    let ghost rules_before = texts(ignore_rules@);
                    ignore_rules.push(float_rule.clone());
                    lines.push(float_rule);
                    assert(texts(lines@) =~= lines_before.push(script.ignore_line(float@)));
                    assert(texts(ignore_rules@) =~= rules_before.push(script.ignore_line(float@)));
                    assert(script.ignore_lines(upto, seen) == earlier.push(
                        script.ignore_line(float@),
                    ));
                } else {
                    assert(script.ignore_lines(upto, seen) == earlier);
                }
            } else {
                assert(upto.last() is Composite);
                assert(script.ignore_lines(upto, seen) == earlier);
            }
            idx += 1;
            assert(texts(lines@) =~= texts(old(lines)@) + script.ignore_lines(upto, seen));
            assert(texts(ignore_rules@) =~= seen + script.ignore_lines(upto, seen));
        }
        assert(all.take(idx as int) =~= all);
    }

    /// Appends the block of one application to `lines`, and notes its new ignore lines in
    /// `ignore_rules`.
    fn push_application_lines(
        lines: &mut Vec<String>,
        ignore_rules: &mut Vec<String>,
        script: Script,
        app: &ApplicationConfiguration,
    )
        requires
            app@.has_commands(),
        ensures
            texts(final(lines)@) == texts(old(lines)@) + script.application_lines(
                app@,
                texts(old(ignore_rules)@),
            ),
            texts(final(ignore_rules)@) == texts(old(ignore_rules)@) + script.new_ignore_lines(
                app@,
                texts(old(ignore_rules)@),
            ),
    {
        let ghost seen = texts(ignore_rules@);
        let mut name = match script {
            Script::Pwsh => String::from_str("# "),
            Script::Ahk => String::from_str("; "),
        };
        name.append(app.name.as_str());
        lines.push(name);
        let ghost with_name = texts(lines@);
        assert(with_name =~= texts(old(lines)@) + seq![script.comment(app@.name)]);
        if let Some(options) = &app.options {
            Self::push_option_lines(
                lines,
                script,
                options,
                &app.identifier.kind,
                app.identifier.id.as_str(),
            );
        }
        let ghost options = match app@.options {
            Some(options) => script.option_lines(options, app@.identifier.kind, app@.identifier.id),
            None => Seq::empty(),
        };
        let ghost with_options = texts(lines@);
        assert(with_options =~= with_name + options);
        if let Some(ignore_identifiers) = &app.ignore_identifiers {
            Self::push_ignore_lines(lines, ignore_rules, script, ignore_identifiers);
        }
        let ghost with_rules = texts(lines@);
        assert(with_rules =~= with_options + script.new_ignore_lines(app@, seen));
        assert(texts(ignore_rules@) =~= seen + script.new_ignore_lines(app@, seen));
        lines.push(String::new());
        assert(texts(lines@) =~= with_rules + seq![Seq::<char>::empty()]);
        assert(texts(lines@) =~= texts(old(lines)@) + script.application_lines(app@, seen));
    }

    /// Merges, orders by name and writes out the script of the given kind.
    fn generate(
        base: Vec<ApplicationConfiguration>,
        overrides: Option<Vec<ApplicationConfiguration>>,
        script: Script,
    ) -> (lines: Vec<String>)
        requires
            forall|i: int|
                0 <= i < configured(views(base@), overrides_views(overrides)).len() ==> (
                #[trigger] configured(views(base@), overrides_views(overrides))[i]).has_commands(),
        ensures
            texts(lines@) == script.lines(configured(views(base@), overrides_views(overrides))),
    {
        let ghost source = configured(views(base@), overrides_views(overrides));
        let cfgen = if let Some(overrides) = overrides {
            Self::merge(base, overrides)
        } else {
            base
        };
        let cfgen = Self::sort_by_name(cfgen);
        let ghost apps = views(cfgen@);
        proof {
            lemma_sorted_members(source);
            assert forall|i: int| 0 <= i < apps.len() implies (#[trigger] apps[i]).has_commands() by {
                assert(source.contains(sorted_by_name(source)[i]));
            }
        }
        let mut lines: Vec<String> = Vec::new();
        lines.push(
            match script {
                Script::Pwsh => String::from_str("# Generated by komorebic.exe"),
                Script::Ahk => String::from_str("; Generated by komorebic.exe"),
            },
        );
        lines.push(String::new());
        let mut ignore_rules: Vec<String> = Vec::new();
        let ghost top = seq![script.header(), Seq::<char>::empty()];
        assert(apps.take(0) =~= Seq::empty());
        assert(texts(lines@) =~= top + script.body(apps.take(0)));
        assert(texts(ignore_rules@) =~= script.ignored(apps.take(0)));
        let mut idx: usize = 0;
        while idx < cfgen.len()
            invariant
                idx <= cfgen@.len(),
                apps == views(cfgen@),
                forall|i: int| 0 <= i < apps.len() ==> (#[trigger] apps[i]).has_commands(),
                texts(lines@) == top + script.body(apps.take(idx as int)),
                texts(ignore_rules@) == script.ignored(apps.take(idx as int)),
            decreases cfgen@.len() - idx,
        {
            let ghost upto = apps.take(idx + 1);
            assert(upto.drop_last() =~= apps.take(idx as int));
            assert(upto.last() == apps[idx as int]);
            let ghost earlier = script.body(apps.take(idx as int));
            let ghost seen = script.ignored(apps.take(idx as int));
            Self::push_application_lines(&mut lines, &mut ignore_rules, script, &cfgen[idx]);
            assert(script.body(upto) == earlier + script.application_lines(apps[idx as int], seen));
            assert(texts(lines@) =~= top + script.body(upto));
            idx += 1;
        }
        assert(apps.take(idx as int) =~= apps);
        lines
    }

    /// The PowerShell script that registers every application of `base`, with
    /// `overrides` merged in, ordered by name.
    pub fn generate_pwsh(
        base: Vec<ApplicationConfiguration>,
        overrides: Option<Vec<ApplicationConfiguration>>,
    ) -> (lines: Vec<String>)
        requires
            forall|i: int|
                0 <= i < configured(views(base@), overrides_views(overrides)).len() ==> (
                #[trigger] configured(views(base@), overrides_views(overrides))[i]).has_commands(),
        ensures
            texts(lines@) == Script::Pwsh.lines(
                configured(views(base@), overrides_views(overrides)),
            ),
    {
        Self::generate(base, overrides, Script::Pwsh)
    }

    /// The AutoHotkey script that registers every application of `base`, with
    /// `overrides` merged in, ordered by name.
    pub fn generate_ahk(
        base: Vec<ApplicationConfiguration>,
        overrides: Option<Vec<ApplicationConfiguration>>,
    ) -> (lines: Vec<String>)
        requires
            forall|i: int|
                0 <= i < configured(views(base@), overrides_views(overrides)).len() ==> (
                #[trigger] configured(views(base@), overrides_views(overrides))[i]).has_commands(),
        ensures
            texts(lines@) == Script::Ahk.lines(
                configured(views(base@), overrides_views(overrides)),
            ),
    {
        Self::generate(base, overrides, Script::Ahk)
    }
}

} // verus!
