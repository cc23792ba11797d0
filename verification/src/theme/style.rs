//! The colors of a style and the roles they fill.

use crate::color::is_hex;
use crate::json::Json;
use crate::map::{entry_map, key_index, keys_ascend, TextMap};
use crate::theme::tokens::{
    holds_hex, is_opaque_color, is_overlay_color, opaque_fault, overlay_fault, role_views,
    RoleColor,
};
use crate::Result;
use vstd::prelude::*;

verus! {

/// The roles of a style, each with its color. No role is generated twice.
#[derive(Debug)]
pub struct StyleBuilder {
    roles: TextMap<String>,
}

impl View for StyleBuilder {
    type V = Map<Seq<char>, Seq<char>>;

    closed spec fn view(&self) -> Map<Seq<char>, Seq<char>> {
        self.roles@.map_values(|color: String| color@)
    }
}

/// `style` with every role of the table.
pub open spec fn filled(
    style: Map<Seq<char>, Seq<char>>,
    table: Seq<(Seq<char>, Seq<char>)>,
) -> Map<Seq<char>, Seq<char>>
    decreases table.len(),
{
    if table.len() == 0 {
        style
    } else {
        filled(style, table.drop_last()).insert(table.last().0, table.last().1)
    }
}

/// Whether the table names no role twice and none that `style` has.
pub open spec fn is_fresh(
    style: Map<Seq<char>, Seq<char>>,
    table: Seq<(Seq<char>, Seq<char>)>,
) -> bool {
    &&& forall|i: int| 0 <= i < table.len() ==> !style.contains_key((#[trigger] table[i]).0)
    &&& forall|i: int, j: int|
        0 <= i < j < table.len() ==> (#[trigger] table[i]).0 != (#[trigger] table[j]).0
}

/// What a filled style has: the roles of the table with their colors, and what it
/// had before.
pub proof fn lemma_filled(style: Map<Seq<char>, Seq<char>>, table: Seq<(Seq<char>, Seq<char>)>)
    requires
        is_fresh(style, table),
    ensures
        forall|i: int|
            0 <= i < table.len() ==> filled(style, table).contains_key((#[trigger] table[i]).0)
                && filled(style, table)[table[i].0] == table[i].1,
        forall|name: Seq<char>| #[trigger]
            style.contains_key(name) ==> filled(style, table).contains_key(name) && filled(
                style,
                table,
            )[name] == style[name],
        forall|name: Seq<char>| #[trigger]
            filled(style, table).contains_key(name) ==> style.contains_key(name) || names_role(
                table,
                name,
            ),
    decreases table.len(),
{
    if table.len() > 0 {
        let shorter = table.drop_last();
        assert(is_fresh(style, shorter)) by {
            assert forall|i: int| 0 <= i < shorter.len() implies !style.contains_key(
                (#[trigger] shorter[i]).0,
            ) by {
                assert(shorter[i] == table[i]);
            }
        }
        lemma_filled(style, shorter);
        assert forall|i: int| 0 <= i < table.len() implies filled(style, table).contains_key(
            (#[trigger] table[i]).0,
        ) && filled(style, table)[table[i].0] == table[i].1 by {
            if i < shorter.len() {
                assert(shorter[i] == table[i]);
                assert(table[i].0 != table[table.len() - 1].0);
            }
        }
        assert forall|name: Seq<char>| #[trigger] style.contains_key(name) implies filled(
            style,
            table,
        ).contains_key(name) && filled(style, table)[name] == style[name] by {
            assert(!style.contains_key(table[table.len() - 1].0));
        }
        assert forall|name: Seq<char>| #[trigger] filled(style, table).contains_key(name) implies
        style.contains_key(name) || names_role(table, name) by {
            if names_role(shorter, name) {
                let i = choose|i: int| 0 <= i < shorter.len() && (#[trigger] shorter[i]).0 == name;
                assert(table[i].0 == name);
            }
            if name == table.last().0 {
                assert(table[table.len() - 1].0 == name);
            } else {
                assert(filled(style, shorter).contains_key(name));
            }
        }
    }
}

/// Whether the table has the role.
pub open spec fn names_role(table: Seq<(Seq<char>, Seq<char>)>, name: Seq<char>) -> bool {
    exists|i: int| 0 <= i < table.len() && (#[trigger] table[i]).0 == name
}

impl StyleBuilder {
    pub fn new() -> (style: Self)
        ensures
            style@ == Map::<Seq<char>, Seq<char>>::empty(),
    {
        let style = StyleBuilder { roles: TextMap::new() };
        assert(style@ =~= Map::<Seq<char>, Seq<char>>::empty());
        style
    }

    /// Adds a role that the style does not have yet.
    pub fn insert(&mut self, role: RoleColor)
        requires
            !old(self)@.contains_key(role@.0),
        ensures
            final(self)@ == old(self)@.insert(role@.0, role@.1),
    {
        let (name, color) = role.into_parts();
        self.roles.insert(name, color);
        assert(self@ =~= old(self)@.insert(role@.0, role@.1));
    }

    /// Adds a role that must have a color without transparency.
    pub fn insert_opaque(&mut self, role: &str, color: String) -> (result: Result<()>)
        requires
            !old(self)@.contains_key(role@),
        ensures
            result is Ok <==> is_opaque_color(color@),
            result is Ok ==> final(self)@ == old(self)@.insert(role@, color@),
            result matches Err(error) ==> error.is_invalid(opaque_fault(color@)) && final(self)@
                == old(self)@,
    {
        let role = RoleColor::opaque_value(role, color)?;
        self.insert(role);
        Ok(())
    }

    /// Adds a role that must have a color with transparency.
    pub fn insert_overlay(&mut self, role: &str, color: String) -> (result: Result<()>)
        requires
            !old(self)@.contains_key(role@),
        ensures
            result is Ok <==> is_overlay_color(color@),
            result is Ok ==> final(self)@ == old(self)@.insert(role@, color@),
            result matches Err(error) ==> error.is_invalid(overlay_fault(color@)) && final(self)@
                == old(self)@,
    {
        let role = RoleColor::overlay_value(role, color)?;
        self.insert(role);
        Ok(())
    }

    /// Adds roles that the style does not have yet.
    pub fn extend(&mut self, roles: Vec<RoleColor>)
        requires
            is_fresh(old(self)@, role_views(roles@)),
        ensures
            final(self)@ == filled(old(self)@, role_views(roles@)),
    {
        let ghost table = role_views(roles@);
        let mut index: usize = 0;
        while index < roles.len()
            invariant
                table == role_views(roles@),
                is_fresh(old(self)@, table),
                index <= roles@.len(),
                self@ == filled(old(self)@, table.take(index as int)),
            decreases roles@.len() - index,
        {
            proof {
                let taken = table.take(index as int);
                assert(is_fresh(old(self)@, taken)) by {
                    assert forall|i: int| 0 <= i < taken.len() implies !old(self)@.contains_key(
                        (#[trigger] taken[i]).0,
                    ) by {
                        assert(taken[i] == table[i]);
                    }
                }
                lemma_filled(old(self)@, taken);
                assert(table[index as int] == roles@[index as int]@);
                if names_role(taken, table[index as int].0) {
                    let i = choose|i: int|
                        0 <= i < taken.len() && (#[trigger] taken[i]).0 == table[index as int].0;
                    assert(table[i].0 == table[index as int].0);
                }
                assert(table.take(index + 1).drop_last() =~= taken);
            }
            self.insert(roles[index].clone());
            index += 1;
        }
        assert(table.take(index as int) =~= table);
    }

    /// Moves every role into the fields of a style that has none of them.
    pub fn append_to(self, style: &mut TextMap<Json>)
        requires
            forall|name: Seq<char>| #[trigger]
                self@.contains_key(name) ==> !old(style)@.contains_key(name),
        ensures
            final(style)@.dom() == old(style)@.dom().union(self@.dom()),
            forall|name: Seq<char>| #[trigger]
                old(style)@.contains_key(name) ==> final(style)@[name] == old(style)@[name],
            forall|name: Seq<char>| #[trigger]
                self@.contains_key(name) ==> final(style)@[name].text_view() == Some(self@[name]),
    {
        let count = self.roles.len();
        let ghost entries = self.roles.listed();
        let mut index: usize = 0;
        while index < count
            invariant
                entries == self.roles.listed(),
                count == entries.len(),
                keys_ascend(entries),
                self.roles@ == entry_map(entries),
                index <= count,
                forall|name: Seq<char>| #[trigger]
                    self@.contains_key(name) ==> !old(style)@.contains_key(name),
                forall|i: int|
                    0 <= i < index ==> style@.contains_key((#[trigger] entries[i]).0@)
                        && style@[entries[i].0@].text_view() == Some(entries[i].1@),
                forall|name: Seq<char>| #[trigger]
                    old(style)@.contains_key(name) ==> style@.contains_key(name) && style@[name]
                        == old(style)@[name],
                forall|name: Seq<char>| #[trigger]
                    style@.contains_key(name) ==> old(style)@.contains_key(name)
                        || self@.contains_key(name),
            decreases count - index,
        {
            let (role, color) = self.roles.entry(index);
            assert(self@.contains_key(role@));
            assert forall|i: int| 0 <= i < index implies (#[trigger] entries[i]).0@ != role@ by {
                assert(crate::text::text_before(entries[i].0@, entries[index as int].0@));
                crate::text::lemma_text_order_total(entries[i].0@, entries[index as int].0@);
            }
            style.insert(role.clone(), Json::Text(color.clone()));
            index += 1;
        }
        assert forall|name: Seq<char>| #[trigger] self@.contains_key(name) implies {
            &&& style@.contains_key(name)
            &&& style@[name].text_view() == Some(self@[name])
        } by {
            let at = key_index(entries, name);
            assert(entries[at].0@ == name);
        }
        assert(style@.dom() =~= old(style)@.dom().union(self@.dom()));
    }
}

/// A role with the kind of color it takes and its color.
#[derive(Debug)]
pub struct RoleEntry {
    pub role: &'static str,
    pub opaque: bool,
    pub value: String,
}

/// The roles, kinds and colors that `entries` hold.
pub open spec fn entry_views(entries: Seq<RoleEntry>) -> Seq<(Seq<char>, bool, Seq<char>)> {
    entries.map_values(|entry: RoleEntry| (entry.role@, entry.opaque, entry.value@))
}

/// The roles and colors of a table with kinds.
pub open spec fn without_kinds(table: Seq<(Seq<char>, bool, Seq<char>)>) -> Seq<
    (Seq<char>, Seq<char>),
> {
    table.map_values(|entry: (Seq<char>, bool, Seq<char>)| (entry.0, entry.2))
}

/// What is wrong with a color of the given kind.
pub open spec fn kind_fault(opaque: bool, value: Seq<char>) -> Option<Seq<char>> {
    if opaque {
        if is_opaque_color(value) {
            None
        } else {
            Some(opaque_fault(value))
        }
    } else if is_overlay_color(value) {
        None
    } else {
        Some(overlay_fault(value))
    }
}

/// What is wrong with the first color of the wrong kind.
pub open spec fn first_kind_fault(checks: Seq<(bool, Seq<char>)>) -> Option<Seq<char>>
    decreases checks.len(),
{
    if checks.len() == 0 {
        None
    } else if kind_fault(checks[0].0, checks[0].1) is Some {
        kind_fault(checks[0].0, checks[0].1)
    } else {
        first_kind_fault(checks.drop_first())
    }
}

/// The kinds and colors of a table.
pub open spec fn kinds_of(table: Seq<(Seq<char>, bool, Seq<char>)>) -> Seq<(bool, Seq<char>)> {
    table.map_values(|entry: (Seq<char>, bool, Seq<char>)| (entry.1, entry.2))
}

proof fn lemma_kind_fault_at(checks: Seq<(bool, Seq<char>)>, index: int)
    requires
        0 <= index < checks.len(),
        kind_fault(checks[index].0, checks[index].1) is Some,
        forall|i: int|
            0 <= i < index ==> kind_fault((#[trigger] checks[i]).0, checks[i].1) is None,
    ensures
        first_kind_fault(checks) == kind_fault(checks[index].0, checks[index].1),
    decreases checks.len(),
{
    if index > 0 {
        assert(kind_fault(checks[0].0, checks[0].1) is None);
        assert forall|i: int| 0 <= i < index - 1 implies kind_fault(
            (#[trigger] checks.drop_first()[i]).0,
            checks.drop_first()[i].1,
        ) is None by {
            assert(checks.drop_first()[i] == checks[i + 1]);
        }
        lemma_kind_fault_at(checks.drop_first(), index - 1);
    }
}

proof fn lemma_no_kind_fault(checks: Seq<(bool, Seq<char>)>)
    requires
        forall|i: int|
            0 <= i < checks.len() ==> kind_fault((#[trigger] checks[i]).0, checks[i].1) is None,
    ensures
        first_kind_fault(checks) is None,
    decreases checks.len(),
{
    if checks.len() > 0 {
        assert(kind_fault(checks[0].0, checks[0].1) is None);
        assert forall|i: int| 0 <= i < checks.len() - 1 implies kind_fault(
            (#[trigger] checks.drop_first()[i]).0,
            checks.drop_first()[i].1,
        ) is None by {
            assert(checks.drop_first()[i] == checks[i + 1]);
        }
        lemma_no_kind_fault(checks.drop_first());
    }
}

/// The first fault of two lists of checks in a row.
proof fn lemma_kind_faults_in_a_row(
    first: Seq<(bool, Seq<char>)>,
    second: Seq<(bool, Seq<char>)>,
)
    ensures
        first_kind_fault(first + second) == if first_kind_fault(first) is Some {
            first_kind_fault(first)
        } else {
            first_kind_fault(second)
        },
    decreases first.len(),
{
    if first.len() == 0 {
        assert(first + second =~= second);
    } else {
        assert((first + second).drop_first() =~= first.drop_first() + second);
        lemma_kind_faults_in_a_row(first.drop_first(), second);
    }
}

impl StyleBuilder {
    /// Adds roles that the style does not have yet, each with a color of its kind.
    pub fn extend_entries(&mut self, entries: Vec<RoleEntry>) -> (result: Result<()>)
        requires
            is_fresh(old(self)@, without_kinds(entry_views(entries@))),
        ensures
            result is Ok <==> first_kind_fault(kinds_of(entry_views(entries@))) is None,
            result is Ok ==> final(self)@ == filled(
                old(self)@,
                without_kinds(entry_views(entries@)),
            ),
            result is Ok ==> holds_hex(without_kinds(entry_views(entries@))),
            result matches Err(error) ==> error.is_invalid(
                first_kind_fault(kinds_of(entry_views(entries@)))->0,
            ),
    {
        let ghost table = without_kinds(entry_views(entries@));
        let ghost checks = kinds_of(entry_views(entries@));
        let mut index: usize = 0;
        while index < entries.len()
            invariant
                table == without_kinds(entry_views(entries@)),
                checks == kinds_of(entry_views(entries@)),
                is_fresh(old(self)@, table),
                index <= entries@.len(),
                self@ == filled(old(self)@, table.take(index as int)),
                forall|i: int|
                    0 <= i < index ==> kind_fault((#[trigger] checks[i]).0, checks[i].1) is None,
            decreases entries@.len() - index,
        {
            let entry = &entries[index];
            proof {
                let taken = table.take(index as int);
                assert(is_fresh(old(self)@, taken)) by {
                    assert forall|i: int| 0 <= i < taken.len() implies !old(self)@.contains_key(
                        (#[trigger] taken[i]).0,
                    ) by {
                        assert(taken[i] == table[i]);
                    }
                }
                lemma_filled(old(self)@, taken);
                assert(table[index as int] == (entry.role@, entry.value@));
                assert(checks[index as int] == (entry.opaque, entry.value@));
                if names_role(taken, entry.role@) {
                    let i = choose|i: int|
                        0 <= i < taken.len() && (#[trigger] taken[i]).0 == entry.role@;
                    assert(table[i].0 == table[index as int].0);
                }
                assert(table.take(index + 1).drop_last() =~= taken);
                if kind_fault(entry.opaque, entry.value@) is Some {
                    lemma_kind_fault_at(checks, index as int);
                }
            }
            if entry.opaque {
                self.insert_opaque(entry.role, entry.value.clone())?;
            } else {
                self.insert_overlay(entry.role, entry.value.clone())?;
            }
            index += 1;
        }
        assert(table.take(index as int) =~= table);
        proof {
            lemma_no_kind_fault(checks);
            assert forall|i: int| 0 <= i < table.len() implies is_hex((#[trigger] table[i]).1) by {
                assert(kind_fault(checks[i].0, checks[i].1) is None);
            }
        }
        Ok(())
    }
}

/// The three strengths of one terminal color.
#[derive(Clone, Debug)]
pub struct Triplet {
    pub dim: String,
    pub normal: String,
    pub bright: String,
}

#[derive(Clone, Debug)]
pub struct TerminalColors {
    pub foreground: Triplet,
    pub black: Triplet,
    pub red: Triplet,
    pub green: Triplet,
    pub yellow: Triplet,
    pub blue: Triplet,
    pub magenta: Triplet,
    pub cyan: Triplet,
    pub white: Triplet,
}

#[derive(Clone, Debug)]
pub struct VersionControlColors {
    pub added: String,
    pub deleted: String,
    pub modified: String,
    pub word_added: String,
    pub word_deleted: String,
    pub conflict_ours: String,
    pub conflict_theirs: String,
}

/// The colors of one editing mode.
#[derive(Clone, Debug)]
pub struct ModeColors {
    pub foreground: String,
    pub background: String,
}

#[derive(Clone, Debug)]
pub struct VimColors {
    pub yank: String,
    pub jump_label: String,
    pub normal: ModeColors,
    pub insert: ModeColors,
    pub replace: ModeColors,
    pub visual: ModeColors,
    pub visual_line: ModeColors,
    pub visual_block: ModeColors,
    pub helix_normal: ModeColors,
    pub helix_select: ModeColors,
}

/// How changed lines are painted.
#[derive(Clone, Debug)]
pub struct DiffLayers {
    pub added_line: String,
    pub deleted_line: String,
    pub added_hollow: String,
    pub deleted_hollow: String,
    pub added_border: String,
    pub deleted_border: String,
}

/// The colors that carry meaning across the interface.
#[derive(Clone, Debug)]
pub struct SemanticColors {
    pub primary: String,
    pub secondary: String,
    pub placeholder: String,
    pub disabled: String,
    pub icon_muted: String,
    pub icon_placeholder: String,
    pub icon_disabled: String,
    pub accent: String,
    pub structural: String,
    pub passive: String,
    pub red: String,
    pub green: String,
    pub blue: String,
    pub yellow: String,
    pub orange: String,
    pub cyan: String,
    pub magenta: String,
}

/// The colors of one status.
#[derive(Clone, Debug)]
pub struct StatusColors {
    pub foreground: String,
    pub background: String,
    pub border: String,
}

/// The colors of every status channel. What is ignored has the foreground of what
/// is hidden.
#[derive(Clone, Debug)]
pub struct StatusSet {
    pub created: StatusColors,
    pub deleted: StatusColors,
    pub warning: StatusColors,
    pub info: StatusColors,
    pub predictive: StatusColors,
    pub hint: StatusColors,
    pub hidden: StatusColors,
    pub unreachable: StatusColors,
    pub ignored_background: String,
    pub ignored_border: String,
}

/// Every color that was solved for a style.
#[derive(Clone, Debug)]
pub struct StyleColors {
    pub canvas: String,
    pub surface: String,
    pub elevated: String,
    pub chrome: String,
    pub semantic: SemanticColors,
    pub content_accent: String,
    pub focus_border: String,
    pub element_hover: String,
    pub element_active: String,
    pub element_selected: String,
    pub ghost_hover: String,
    pub ghost_active: String,
    pub tab_inactive: String,
    pub panel_overlay: String,
    pub panel_overlay_hover: String,
    pub panel_guide: String,
    pub panel_guide_hover: String,
    pub panel_guide_active: String,
    pub drop_target: String,
    pub drop_target_border: String,
    pub search_match: String,
    pub search_active: String,
    pub thumb: String,
    pub thumb_hover: String,
    pub thumb_active: String,
    pub track_border: String,
    pub editor_primary: String,
    pub editor_active_line: String,
    pub editor_highlighted_line: String,
    pub debugger_active: String,
    pub line_number: String,
    pub active_line_number: String,
    pub hover_line_number: String,
    pub invisible: String,
    pub indent_guide: String,
    pub indent_guide_active: String,
    pub document_read: String,
    pub document_write: String,
    pub document_bracket: String,
    pub diff: DiffLayers,
    pub terminal: TerminalColors,
    pub version_control: VersionControlColors,
    pub vim: VimColors,
    pub statuses: StatusSet,
}

fn opaque_entry(role: &'static str, value: &String) -> (entry: RoleEntry)
    ensures
        (entry.role@, entry.opaque, entry.value@) == (role@, true, value@),
{
    RoleEntry { role, opaque: true, value: value.clone() }
}

fn overlay_entry(role: &'static str, value: &String) -> (entry: RoleEntry)
    ensures
        (entry.role@, entry.opaque, entry.value@) == (role@, false, value@),
{
    RoleEntry { role, opaque: false, value: value.clone() }
}

impl StyleColors {
    /// The roles of borders, controls, tabs and search.
    pub open spec fn frame_table(&self) -> Seq<(Seq<char>, bool, Seq<char>)> {
        seq![
            ("border"@, true, self.semantic.structural@),
            ("border.variant"@, true, self.semantic.passive@),
            ("border.focused"@, true, self.focus_border@),
            ("border.selected"@, true, self.focus_border@),
            ("border.disabled"@, true, self.semantic.passive@),
            ("element.background"@, true, self.surface@),
            ("element.selection_background"@, false, self.element_selected@),
            ("drop_target.background"@, false, self.drop_target@),
            ("drop_target.border"@, true, self.drop_target_border@),
            ("debugger.accent"@, true, self.semantic.red@),
            ("tab_bar.background"@, true, self.chrome@),
            ("tab.inactive_background"@, true, self.tab_inactive@),
            ("search.match_background"@, false, self.search_match@),
            ("search.active_match_background"@, false, self.search_active@),
        ]
    }

    fn frame_entries(&self) -> (entries: Vec<RoleEntry>)
        ensures
            entry_views(entries@) == self.frame_table(),
    {
        let entries = vec![
            opaque_entry("border", &self.semantic.structural),
            opaque_entry("border.variant", &self.semantic.passive),
            opaque_entry("border.focused", &self.focus_border),
            opaque_entry("border.selected", &self.focus_border),
            opaque_entry("border.disabled", &self.semantic.passive),
            opaque_entry("element.background", &self.surface),
            overlay_entry("element.selection_background", &self.element_selected),
            overlay_entry("drop_target.background", &self.drop_target),
            opaque_entry("drop_target.border", &self.drop_target_border),
            opaque_entry("debugger.accent", &self.semantic.red),
            opaque_entry("tab_bar.background", &self.chrome),
            opaque_entry("tab.inactive_background", &self.tab_inactive),
            overlay_entry("search.match_background", &self.search_match),
            overlay_entry("search.active_match_background", &self.search_active),
        ];
        assert(entry_views(entries@) =~= self.frame_table());
        entries
    }

    /// The roles of panels and scrollbars.
    pub open spec fn panel_table(&self) -> Seq<(Seq<char>, bool, Seq<char>)> {
        seq![
            ("panel.background"@, true, self.surface@),
            ("panel.focused_border"@, true, self.focus_border@),
            ("panel.indent_guide"@, true, self.panel_guide@),
            ("panel.indent_guide_hover"@, true, self.panel_guide_hover@),
            ("panel.indent_guide_active"@, true, self.panel_guide_active@),
            ("panel.overlay_background"@, true, self.panel_overlay@),
            ("panel.overlay_hover"@, true, self.panel_overlay_hover@),
            ("pane.focused_border"@, true, self.focus_border@),
            ("pane_group.border"@, true, self.semantic.structural@),
            ("scrollbar.thumb.background"@, false, self.thumb@),
            ("scrollbar.thumb.hover_background"@, false, self.thumb_hover@),
            ("scrollbar.thumb.active_background"@, false, self.thumb_active@),
            ("scrollbar.thumb.border"@, true, self.semantic.structural@),
            ("scrollbar.track.border"@, true, self.track_border@),
            ("minimap.thumb.background"@, false, self.thumb@),
            ("minimap.thumb.hover_background"@, false, self.thumb_hover@),
            ("minimap.thumb.active_background"@, false, self.thumb_active@),
            ("minimap.thumb.border"@, true, self.semantic.structural@),
        ]
    }

    fn panel_entries(&self) -> (entries: Vec<RoleEntry>)
        ensures
            entry_views(entries@) == self.panel_table(),
    {
        let entries = vec![
            opaque_entry("panel.background", &self.surface),
            opaque_entry("panel.focused_border", &self.focus_border),
            opaque_entry("panel.indent_guide", &self.panel_guide),
            opaque_entry("panel.indent_guide_hover", &self.panel_guide_hover),
            opaque_entry("panel.indent_guide_active", &self.panel_guide_active),
            opaque_entry("panel.overlay_background", &self.panel_overlay),
            opaque_entry("panel.overlay_hover", &self.panel_overlay_hover),
            opaque_entry("pane.focused_border", &self.focus_border),
            opaque_entry("pane_group.border", &self.semantic.structural),
            overlay_entry("scrollbar.thumb.background", &self.thumb),
            overlay_entry("scrollbar.thumb.hover_background", &self.thumb_hover),
            overlay_entry("scrollbar.thumb.active_background", &self.thumb_active),
            opaque_entry("scrollbar.thumb.border", &self.semantic.structural),
            opaque_entry("scrollbar.track.border", &self.track_border),
            overlay_entry("minimap.thumb.background", &self.thumb),
            overlay_entry("minimap.thumb.hover_background", &self.thumb_hover),
            overlay_entry("minimap.thumb.active_background", &self.thumb_active),
            opaque_entry("minimap.thumb.border", &self.semantic.structural),
        ];
        assert(entry_views(entries@) =~= self.panel_table());
        entries
    }

    /// The roles of the editor.
    pub open spec fn editor_table(&self) -> Seq<(Seq<char>, bool, Seq<char>)> {
        seq![
            ("editor.subheader.background"@, true, self.chrome@),
            ("editor.debugger_active_line.background"@, false, self.debugger_active@),
            ("editor.line_number"@, true, self.line_number@),
            ("editor.active_line_number"@, true, self.active_line_number@),
            ("editor.hover_line_number"@, true, self.hover_line_number@),
            ("editor.invisible"@, true, self.invisible@),
            ("editor.indent_guide"@, true, self.indent_guide@),
            ("editor.indent_guide_active"@, true, self.indent_guide_active@),
            ("editor.document_highlight.write_background"@, false, self.document_write@),
            ("editor.document_highlight.bracket_background"@, false, self.document_bracket@),
            ("editor.diff_hunk.added.background"@, false, self.diff.added_line@),
            ("editor.diff_hunk.added.hollow_background"@, false, self.diff.added_hollow@),
            ("editor.diff_hunk.added.hollow_border"@, false, self.diff.added_border@),
            ("editor.diff_hunk.deleted.background"@, false, self.diff.deleted_line@),
            ("editor.diff_hunk.deleted.hollow_background"@, false, self.diff.deleted_hollow@),
            ("editor.diff_hunk.deleted.hollow_border"@, false, self.diff.deleted_border@),
        ]
    }

    fn editor_entries(&self) -> (entries: Vec<RoleEntry>)
        ensures
            entry_views(entries@) == self.editor_table(),
    {
        let entries = vec![
            opaque_entry("editor.subheader.background", &self.chrome),
            overlay_entry("editor.debugger_active_line.background", &self.debugger_active),
            opaque_entry("editor.line_number", &self.line_number),
            opaque_entry("editor.active_line_number", &self.active_line_number),
            opaque_entry("editor.hover_line_number", &self.hover_line_number),
            opaque_entry("editor.invisible", &self.invisible),
            opaque_entry("editor.indent_guide", &self.indent_guide),
            opaque_entry("editor.indent_guide_active", &self.indent_guide_active),
            overlay_entry("editor.document_highlight.write_background", &self.document_write),
            overlay_entry("editor.document_highlight.bracket_background", &self.document_bracket),
            overlay_entry("editor.diff_hunk.added.background", &self.diff.added_line),
            overlay_entry("editor.diff_hunk.added.hollow_background", &self.diff.added_hollow),
            overlay_entry("editor.diff_hunk.added.hollow_border", &self.diff.added_border),
            overlay_entry("editor.diff_hunk.deleted.background", &self.diff.deleted_line),
            overlay_entry("editor.diff_hunk.deleted.hollow_background", &self.diff.deleted_hollow),
            overlay_entry("editor.diff_hunk.deleted.hollow_border", &self.diff.deleted_border),
        ];
        assert(entry_views(entries@) =~= self.editor_table());
        entries
    }

    /// The roles of the terminal.
    pub open spec fn terminal_table(&self) -> Seq<(Seq<char>, bool, Seq<char>)> {
        seq![
            ("terminal.background"@, true, self.canvas@),
            ("terminal.ansi.background"@, true, self.canvas@),
            ("terminal.dim_foreground"@, true, self.terminal.foreground.dim@),
            ("terminal.foreground"@, true, self.terminal.foreground.normal@),
            ("terminal.bright_foreground"@, true, self.terminal.foreground.bright@),
            ("terminal.ansi.dim_black"@, true, self.terminal.black.dim@),
            ("terminal.ansi.black"@, true, self.terminal.black.normal@),
            ("terminal.ansi.bright_black"@, true, self.terminal.black.bright@),
            ("terminal.ansi.dim_red"@, true, self.terminal.red.dim@),
            ("terminal.ansi.red"@, true, self.terminal.red.normal@),
            ("terminal.ansi.bright_red"@, true, self.terminal.red.bright@),
            ("terminal.ansi.dim_green"@, true, self.terminal.green.dim@),
            ("terminal.ansi.green"@, true, self.terminal.green.normal@),
            ("terminal.ansi.bright_green"@, true, self.terminal.green.bright@),
            ("terminal.ansi.dim_yellow"@, true, self.terminal.yellow.dim@),
            ("terminal.ansi.yellow"@, true, self.terminal.yellow.normal@),
            ("terminal.ansi.bright_yellow"@, true, self.terminal.yellow.bright@),
            ("terminal.ansi.dim_blue"@, true, self.terminal.blue.dim@),
            ("terminal.ansi.blue"@, true, self.terminal.blue.normal@),
            ("terminal.ansi.bright_blue"@, true, self.terminal.blue.bright@),
            ("terminal.ansi.dim_magenta"@, true, self.terminal.magenta.dim@),
            ("terminal.ansi.magenta"@, true, self.terminal.magenta.normal@),
            ("terminal.ansi.bright_magenta"@, true, self.terminal.magenta.bright@),
            ("terminal.ansi.dim_cyan"@, true, self.terminal.cyan.dim@),
            ("terminal.ansi.cyan"@, true, self.terminal.cyan.normal@),
            ("terminal.ansi.bright_cyan"@, true, self.terminal.cyan.bright@),
            ("terminal.ansi.dim_white"@, true, self.terminal.white.dim@),
            ("terminal.ansi.white"@, true, self.terminal.white.normal@),
            ("terminal.ansi.bright_white"@, true, self.terminal.white.bright@),
        ]
    }

    fn terminal_entries(&self) -> (entries: Vec<RoleEntry>)
        ensures
            entry_views(entries@) == self.terminal_table(),
    {
        let entries = vec![
            opaque_entry("terminal.background", &self.canvas),
            opaque_entry("terminal.ansi.background", &self.canvas),
            opaque_entry("terminal.dim_foreground", &self.terminal.foreground.dim),
            opaque_entry("terminal.foreground", &self.terminal.foreground.normal),
            opaque_entry("terminal.bright_foreground", &self.terminal.foreground.bright),
            opaque_entry("terminal.ansi.dim_black", &self.terminal.black.dim),
            opaque_entry("terminal.ansi.black", &self.terminal.black.normal),
            opaque_entry("terminal.ansi.bright_black", &self.terminal.black.bright),
            opaque_entry("terminal.ansi.dim_red", &self.terminal.red.dim),
            opaque_entry("terminal.ansi.red", &self.terminal.red.normal),
            opaque_entry("terminal.ansi.bright_red", &self.terminal.red.bright),
            opaque_entry("terminal.ansi.dim_green", &self.terminal.green.dim),
            opaque_entry("terminal.ansi.green", &self.terminal.green.normal),
            opaque_entry("terminal.ansi.bright_green", &self.terminal.green.bright),
            opaque_entry("terminal.ansi.dim_yellow", &self.terminal.yellow.dim),
            opaque_entry("terminal.ansi.yellow", &self.terminal.yellow.normal),
            opaque_entry("terminal.ansi.bright_yellow", &self.terminal.yellow.bright),
            opaque_entry("terminal.ansi.dim_blue", &self.terminal.blue.dim),
            opaque_entry("terminal.ansi.blue", &self.terminal.blue.normal),
            opaque_entry("terminal.ansi.bright_blue", &self.terminal.blue.bright),
            opaque_entry("terminal.ansi.dim_magenta", &self.terminal.magenta.dim),
            opaque_entry("terminal.ansi.magenta", &self.terminal.magenta.normal),
            opaque_entry("terminal.ansi.bright_magenta", &self.terminal.magenta.bright),
            opaque_entry("terminal.ansi.dim_cyan", &self.terminal.cyan.dim),
            opaque_entry("terminal.ansi.cyan", &self.terminal.cyan.normal),
            opaque_entry("terminal.ansi.bright_cyan", &self.terminal.cyan.bright),
            opaque_entry("terminal.ansi.dim_white", &self.terminal.white.dim),
            opaque_entry("terminal.ansi.white", &self.terminal.white.normal),
            opaque_entry("terminal.ansi.bright_white", &self.terminal.white.bright),
        ];
        assert(entry_views(entries@) =~= self.terminal_table());
        entries
    }

    /// The roles of version control.
    pub open spec fn version_control_table(&self) -> Seq<(Seq<char>, bool, Seq<char>)> {
        seq![
            ("version_control.added"@, true, self.version_control.added@),
            ("version_control.deleted"@, true, self.version_control.deleted@),
            ("version_control.modified"@, true, self.version_control.modified@),
            ("version_control.renamed"@, true, self.semantic.blue@),
            ("version_control.conflict"@, true, self.semantic.orange@),
            ("version_control.ignored"@, true, self.semantic.secondary@),
            ("version_control.word_added"@, false, self.version_control.word_added@),
            ("version_control.word_deleted"@, false, self.version_control.word_deleted@),
            ("version_control.conflict_marker.ours"@, false, self.version_control.conflict_ours@),
            (
                "version_control.conflict_marker.theirs"@,
                false,
                self.version_control.conflict_theirs@,
            ),
        ]
    }

    fn version_control_entries(&self) -> (entries: Vec<RoleEntry>)
        ensures
            entry_views(entries@) == self.version_control_table(),
    {
        let entries = vec![
            opaque_entry("version_control.added", &self.version_control.added),
            opaque_entry("version_control.deleted", &self.version_control.deleted),
            opaque_entry("version_control.modified", &self.version_control.modified),
            opaque_entry("version_control.renamed", &self.semantic.blue),
            opaque_entry("version_control.conflict", &self.semantic.orange),
            opaque_entry("version_control.ignored", &self.semantic.secondary),
            overlay_entry("version_control.word_added", &self.version_control.word_added),
            overlay_entry("version_control.word_deleted", &self.version_control.word_deleted),
            overlay_entry(
                "version_control.conflict_marker.ours",
                &self.version_control.conflict_ours,
            ),
            overlay_entry(
                "version_control.conflict_marker.theirs",
                &self.version_control.conflict_theirs,
            ),
        ];
        assert(entry_views(entries@) =~= self.version_control_table());
        entries
    }

    /// The roles of the modal editing modes.
    pub open spec fn vim_table(&self) -> Seq<(Seq<char>, bool, Seq<char>)> {
        seq![
            ("vim.yank.background"@, false, self.vim.yank@),
            ("vim.helix_jump_label.foreground"@, true, self.vim.jump_label@),
            ("vim.normal.foreground"@, true, self.vim.normal.foreground@),
            ("vim.normal.background"@, true, self.vim.normal.background@),
            ("vim.insert.foreground"@, true, self.vim.insert.foreground@),
            ("vim.insert.background"@, true, self.vim.insert.background@),
            ("vim.replace.foreground"@, true, self.vim.replace.foreground@),
            ("vim.replace.background"@, true, self.vim.replace.background@),
            ("vim.visual.foreground"@, true, self.vim.visual.foreground@),
            ("vim.visual.background"@, true, self.vim.visual.background@),
            ("vim.visual_line.foreground"@, true, self.vim.visual_line.foreground@),
            ("vim.visual_line.background"@, true, self.vim.visual_line.background@),
            ("vim.visual_block.foreground"@, true, self.vim.visual_block.foreground@),
            ("vim.visual_block.background"@, true, self.vim.visual_block.background@),
            ("vim.helix_normal.foreground"@, true, self.vim.helix_normal.foreground@),
            ("vim.helix_normal.background"@, true, self.vim.helix_normal.background@),
            ("vim.helix_select.foreground"@, true, self.vim.helix_select.foreground@),
            ("vim.helix_select.background"@, true, self.vim.helix_select.background@),
        ]
    }

    fn vim_entries(&self) -> (entries: Vec<RoleEntry>)
        ensures
            entry_views(entries@) == self.vim_table(),
    {
        let entries = vec![
            overlay_entry("vim.yank.background", &self.vim.yank),
            opaque_entry("vim.helix_jump_label.foreground", &self.vim.jump_label),
            opaque_entry("vim.normal.foreground", &self.vim.normal.foreground),
            opaque_entry("vim.normal.background", &self.vim.normal.background),
            opaque_entry("vim.insert.foreground", &self.vim.insert.foreground),
            opaque_entry("vim.insert.background", &self.vim.insert.background),
            opaque_entry("vim.replace.foreground", &self.vim.replace.foreground),
            opaque_entry("vim.replace.background", &self.vim.replace.background),
            opaque_entry("vim.visual.foreground", &self.vim.visual.foreground),
            opaque_entry("vim.visual.background", &self.vim.visual.background),
            opaque_entry("vim.visual_line.foreground", &self.vim.visual_line.foreground),
            opaque_entry("vim.visual_line.background", &self.vim.visual_line.background),
            opaque_entry("vim.visual_block.foreground", &self.vim.visual_block.foreground),
            opaque_entry("vim.visual_block.background", &self.vim.visual_block.background),
            opaque_entry("vim.helix_normal.foreground", &self.vim.helix_normal.foreground),
            opaque_entry("vim.helix_normal.background", &self.vim.helix_normal.background),
            opaque_entry("vim.helix_select.foreground", &self.vim.helix_select.foreground),
            opaque_entry("vim.helix_select.background", &self.vim.helix_select.background),
        ];
        assert(entry_views(entries@) =~= self.vim_table());
        entries
    }

    /// The roles that take their color from no token.
    #[verifier::opaque]
    pub open spec fn fixed_table(&self) -> Seq<(Seq<char>, bool, Seq<char>)> {
        self.frame_table() + self.panel_table() + self.editor_table() + self.terminal_table() + self.version_control_table() + self.vim_table()
    }

    pub(crate) fn fixed_entries(&self) -> (entries: Vec<RoleEntry>)
        ensures
            entry_views(entries@) == self.fixed_table(),
    {
        reveal(StyleColors::fixed_table);
        let mut entries = self.frame_entries();
        extend_list(&mut entries, self.panel_entries());
        extend_list(&mut entries, self.editor_entries());
        extend_list(&mut entries, self.terminal_entries());
        extend_list(&mut entries, self.version_control_entries());
        extend_list(&mut entries, self.vim_entries());
        entries
    }
}

fn extend_list(entries: &mut Vec<RoleEntry>, more: Vec<RoleEntry>)
    ensures
        entry_views(final(entries)@) == entry_views(old(entries)@) + entry_views(more@),
{
    let mut more = more;
    let ghost added = more@;
    entries.append(&mut more);
    assert(entry_views(entries@) =~= entry_views(old(entries)@) + entry_views(added));
}

} // verus!
