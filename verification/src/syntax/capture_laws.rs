//! How each capture of the theme is set.

use crate::syntax::plan::{is_family_for, SemanticRole};
use crate::syntax::policy::{
    capture_names, is_capture_at, lemma_captures_are_distinct, role_floor, role_of,
    role_overlay_floor, CAPTURE_ROLES,
};
use crate::syntax::{
    is_italic, is_role_color, styles_captures, weight_of, FixedRoleColors, SemanticPlan,
    SyntaxStyle,
};
use vstd::prelude::*;

verus! {

/// Whether the capture is set in the color, and in no other.
pub open spec fn sets_in(styles: Seq<SyntaxStyle>, capture: Seq<char>, color: Seq<char>) -> bool {
    &&& exists|i: int| 0 <= i < styles.len() && (#[trigger] styles[i]).capture@ == capture
    &&& forall|i: int|
        0 <= i < styles.len() && (#[trigger] styles[i]).capture@ == capture ==> styles[i].color@
            == color
}

/// Whether the family at `position` is the first one that colors the role.
pub open spec fn first_colors(semantic: SemanticPlan, role: SemanticRole, position: int) -> bool {
    &&& 0 <= position < semantic.plan.families@.len()
    &&& semantic.plan.families@[position].roles@.contains(role)
    &&& forall|i: int|
        0 <= i < position ==> !(#[trigger] semantic.plan.families@[i]).roles@.contains(role)
}

/// Whether the capture is set in the color of the first family that colors the role,
/// and in the color `otherwise` where no family does.
pub open spec fn sets_by_family(
    semantic: SemanticPlan,
    styles: Seq<SyntaxStyle>,
    capture: Seq<char>,
    role: SemanticRole,
    otherwise: Seq<char>,
) -> bool {
    &&& forall|position: int| #[trigger]
        first_colors(semantic, role, position) ==> sets_in(
            styles,
            capture,
            semantic.allocations@[position].output@,
        )
    &&& (forall|position: int|
        0 <= position < semantic.plan.families@.len() ==> !(
        #[trigger] semantic.plan.families@[position]).roles@.contains(role)) ==> sets_in(
        styles,
        capture,
        otherwise,
    )
}

/// Where a capture stands among the styles.
proof fn lemma_capture_place(
    fixed: FixedRoleColors,
    semantic: SemanticPlan,
    styles: Seq<SyntaxStyle>,
    place: int,
)
    requires
        styles_captures(fixed, semantic, styles),
        0 <= place < 56,
    ensures
        styles[place].capture@ == capture_names()[place],
        is_role_color(fixed, semantic, CAPTURE_ROLES@[place], styles[place].color@),
        sets_in(styles, capture_names()[place], styles[place].color@),
{
    let name = capture_names()[place];
    assert(styles[place].capture@ == name);
    assert forall|i: int| 0 <= i < styles.len() && (#[trigger] styles[i]).capture@
        == name implies styles[i].color@ == styles[place].color@ by {
        lemma_captures_are_distinct(i, place);
    }
}

/// A capture whose role belongs to a family has the color of that family.
proof fn lemma_family_capture(
    fixed: FixedRoleColors,
    semantic: SemanticPlan,
    styles: Seq<SyntaxStyle>,
    place: int,
    role: SemanticRole,
    otherwise: Seq<char>,
)
    requires
        styles_captures(fixed, semantic, styles),
        0 <= place < 56,
        CAPTURE_ROLES@[place] == role,
        role != SemanticRole::Base,
        role != SemanticRole::Subdued,
        role != SemanticRole::Predictive,
        !role.is_diff(),
        otherwise == if role == SemanticRole::Metadata {
            fixed.subdued@
        } else {
            fixed.base@
        },
    ensures
        sets_by_family(semantic, styles, capture_names()[place], role, otherwise),
{
    lemma_capture_place(fixed, semantic, styles, place);
    let views = semantic.plan.views();
    let families = semantic.plan.families@;
    let color = styles[place].color@;
    let found = choose|family: Option<usize>|
        {
            &&& #[trigger] is_family_for(views, role, family)
            &&& color == match family {
                Some(family) => semantic.allocations@[family as int].output@,
                None => otherwise,
            }
        };
    assert forall|i: int| 0 <= i < families.len() implies (#[trigger] families[i]).roles@
        == views[i].roles by {}
    if let Some(index) = found {
        assert(families[index as int].roles@.contains(role));
        assert forall|position: int| #[trigger]
            first_colors(semantic, role, position) implies sets_in(
            styles,
            capture_names()[place],
            semantic.allocations@[position].output@,
        ) by {
            assert(views[position].roles.contains(role));
            assert(position == index);
        }
    } else {
        assert forall|position: int| 0 <= position < families.len() implies !(
        #[trigger] families[position]).roles@.contains(role) by {
            assert(!views[position].roles.contains(role));
        }
    }
}

/// A changed line has the color of changes, an added line that of additions, and a
/// removed line that of deletions; a prediction has the predictive color.
pub proof fn lemma_changes_keep_their_colors(
    fixed: FixedRoleColors,
    semantic: SemanticPlan,
    styles: Seq<SyntaxStyle>,
)
    requires
        styles_captures(fixed, semantic, styles),
    ensures
        sets_in(styles, "diff"@, fixed.change@),
        sets_in(styles, "diff.plus"@, fixed.add@),
        sets_in(styles, "diff.minus"@, fixed.delete@),
        sets_in(styles, "predictive"@, fixed.predictive@),
{
    lemma_capture_place(fixed, semantic, styles, 48);
    assert(capture_names()[48] == "diff"@);
    lemma_capture_place(fixed, semantic, styles, 7);
    assert(capture_names()[7] == "diff.plus"@);
    lemma_capture_place(fixed, semantic, styles, 6);
    assert(capture_names()[6] == "diff.minus"@);
    lemma_capture_place(fixed, semantic, styles, 22);
    assert(capture_names()[22] == "predictive"@);
}

/// Comments and the marks between words are subdued.
pub proof fn lemma_quiet_captures(
    fixed: FixedRoleColors,
    semantic: SemanticPlan,
    styles: Seq<SyntaxStyle>,
)
    requires
        styles_captures(fixed, semantic, styles),
    ensures
        sets_in(styles, "comment"@, fixed.subdued@),
        sets_in(styles, "comment.doc"@, fixed.subdued@),
        sets_in(styles, "punctuation"@, fixed.subdued@),
        sets_in(styles, "punctuation.delimiter"@, fixed.subdued@),
        sets_in(styles, "punctuation.list_marker"@, fixed.subdued@),
        sets_in(styles, "punctuation.markup"@, fixed.subdued@),
        sets_in(styles, "strikethrough"@, fixed.subdued@),
{
    lemma_capture_place(fixed, semantic, styles, 2);
    assert(capture_names()[2] == "comment"@);
    lemma_capture_place(fixed, semantic, styles, 3);
    assert(capture_names()[3] == "comment.doc"@);
    lemma_capture_place(fixed, semantic, styles, 26);
    assert(capture_names()[26] == "punctuation"@);
    lemma_capture_place(fixed, semantic, styles, 28);
    assert(capture_names()[28] == "punctuation.delimiter"@);
    lemma_capture_place(fixed, semantic, styles, 29);
    assert(capture_names()[29] == "punctuation.list_marker"@);
    lemma_capture_place(fixed, semantic, styles, 30);
    assert(capture_names()[30] == "punctuation.markup"@);
    lemma_capture_place(fixed, semantic, styles, 53);
    assert(capture_names()[53] == "strikethrough"@);
}

/// Plain text, variables, operators and brackets have the base color.
pub proof fn lemma_plain_captures(
    fixed: FixedRoleColors,
    semantic: SemanticPlan,
    styles: Seq<SyntaxStyle>,
)
    requires
        styles_captures(fixed, semantic, styles),
    ensures
        sets_in(styles, "embedded"@, fixed.base@),
        sets_in(styles, "emphasis"@, fixed.base@),
        sets_in(styles, "emphasis.strong"@, fixed.base@),
        sets_in(styles, "label"@, fixed.base@),
        sets_in(styles, "operator"@, fixed.base@),
        sets_in(styles, "primary"@, fixed.base@),
        sets_in(styles, "punctuation.bracket"@, fixed.base@),
        sets_in(styles, "punctuation.special"@, fixed.base@),
        sets_in(styles, "title"@, fixed.base@),
        sets_in(styles, "variable"@, fixed.base@),
        sets_in(styles, "variable.parameter"@, fixed.base@),
        sets_in(styles, "variable.special"@, fixed.base@),
        sets_in(styles, "markup"@, fixed.base@),
        sets_in(styles, "text"@, fixed.base@),
{
    lemma_capture_place(fixed, semantic, styles, 8);
    assert(capture_names()[8] == "embedded"@);
    lemma_capture_place(fixed, semantic, styles, 9);
    assert(capture_names()[9] == "emphasis"@);
    lemma_capture_place(fixed, semantic, styles, 10);
    assert(capture_names()[10] == "emphasis.strong"@);
    lemma_capture_place(fixed, semantic, styles, 16);
    assert(capture_names()[16] == "label"@);
    lemma_capture_place(fixed, semantic, styles, 21);
    assert(capture_names()[21] == "operator"@);
    lemma_capture_place(fixed, semantic, styles, 24);
    assert(capture_names()[24] == "primary"@);
    lemma_capture_place(fixed, semantic, styles, 27);
    assert(capture_names()[27] == "punctuation.bracket"@);
    lemma_capture_place(fixed, semantic, styles, 31);
    assert(capture_names()[31] == "punctuation.special"@);
    lemma_capture_place(fixed, semantic, styles, 41);
    assert(capture_names()[41] == "title"@);
    lemma_capture_place(fixed, semantic, styles, 43);
    assert(capture_names()[43] == "variable"@);
    lemma_capture_place(fixed, semantic, styles, 44);
    assert(capture_names()[44] == "variable.parameter"@);
    lemma_capture_place(fixed, semantic, styles, 45);
    assert(capture_names()[45] == "variable.special"@);
    lemma_capture_place(fixed, semantic, styles, 50);
    assert(capture_names()[50] == "markup"@);
    lemma_capture_place(fixed, semantic, styles, 54);
    assert(capture_names()[54] == "text"@);
}

/// Calls, types and members have the color of their family, or else the base color.
pub proof fn lemma_symbol_captures(
    fixed: FixedRoleColors,
    semantic: SemanticPlan,
    styles: Seq<SyntaxStyle>,
)
    requires
        styles_captures(fixed, semantic, styles),
    ensures

        sets_by_family(
            semantic,
            styles,
            "constructor"@,
            SemanticRole::Callable,
            fixed.base@,
        ),
        sets_by_family(
            semantic,
            styles,
            "function"@,
            SemanticRole::Callable,
            fixed.base@,
        ),
        sets_by_family(
            semantic,
            styles,
            "function.builtin"@,
            SemanticRole::Callable,
            fixed.base@,
        ),
        sets_by_family(
            semantic,
            styles,
            "enum"@,
            SemanticRole::Type,
            fixed.base@,
        ),
        sets_by_family(
            semantic,
            styles,
            "namespace"@,
            SemanticRole::Type,
            fixed.base@,
        ),
        sets_by_family(
            semantic,
            styles,
            "type"@,
            SemanticRole::Type,
            fixed.base@,
        ),
        sets_by_family(
            semantic,
            styles,
            "concept"@,
            SemanticRole::Type,
            fixed.base@,
        ),
        sets_by_family(
            semantic,
            styles,
            "lifetime"@,
            SemanticRole::Type,
            fixed.base@,
        ),
        sets_by_family(
            semantic,
            styles,
            "module"@,
            SemanticRole::Type,
            fixed.base@,
        ),
        sets_by_family(
            semantic,
            styles,
            "attribute"@,
            SemanticRole::Member,
            fixed.base@,
        ),
        sets_by_family(
            semantic,
            styles,
            "property"@,
            SemanticRole::Member,
            fixed.base@,
        ),
        sets_by_family(
            semantic,
            styles,
            "selector"@,
            SemanticRole::Member,
            fixed.base@,
        ),
        sets_by_family(
            semantic,
            styles,
            "selector.pseudo"@,
            SemanticRole::Member,
            fixed.base@,
        ),
        sets_by_family(
            semantic,
            styles,
            "tag"@,
            SemanticRole::Member,
            fixed.base@,
        ),
{
    lemma_family_capture(
        fixed,
        semantic,
        styles,
        5,
        SemanticRole::Callable,
        fixed.base@,
    );
    assert(capture_names()[5] == "constructor"@);
    lemma_family_capture(
        fixed,
        semantic,
        styles,
        12,
        SemanticRole::Callable,
        fixed.base@,
    );
    assert(capture_names()[12] == "function"@);
    lemma_family_capture(
        fixed,
        semantic,
        styles,
        13,
        SemanticRole::Callable,
        fixed.base@,
    );
    assert(capture_names()[13] == "function.builtin"@);
    lemma_family_capture(
        fixed,
        semantic,
        styles,
        11,
        SemanticRole::Type,
        fixed.base@,
    );
    assert(capture_names()[11] == "enum"@);
    lemma_family_capture(
        fixed,
        semantic,
        styles,
        19,
        SemanticRole::Type,
        fixed.base@,
    );
    assert(capture_names()[19] == "namespace"@);
    lemma_family_capture(
        fixed,
        semantic,
        styles,
        42,
        SemanticRole::Type,
        fixed.base@,
    );
    assert(capture_names()[42] == "type"@);
    lemma_family_capture(
        fixed,
        semantic,
        styles,
        47,
        SemanticRole::Type,
        fixed.base@,
    );
    assert(capture_names()[47] == "concept"@);
    lemma_family_capture(
        fixed,
        semantic,
        styles,
        49,
        SemanticRole::Type,
        fixed.base@,
    );
    assert(capture_names()[49] == "lifetime"@);
    lemma_family_capture(
        fixed,
        semantic,
        styles,
        51,
        SemanticRole::Type,
        fixed.base@,
    );
    assert(capture_names()[51] == "module"@);
    lemma_family_capture(
        fixed,
        semantic,
        styles,
        0,
        SemanticRole::Member,
        fixed.base@,
    );
    assert(capture_names()[0] == "attribute"@);
    lemma_family_capture(
        fixed,
        semantic,
        styles,
        25,
        SemanticRole::Member,
        fixed.base@,
    );
    assert(capture_names()[25] == "property"@);
    lemma_family_capture(
        fixed,
        semantic,
        styles,
        32,
        SemanticRole::Member,
        fixed.base@,
    );
    assert(capture_names()[32] == "selector"@);
    lemma_family_capture(
        fixed,
        semantic,
        styles,
        33,
        SemanticRole::Member,
        fixed.base@,
    );
    assert(capture_names()[33] == "selector.pseudo"@);
    lemma_family_capture(
        fixed,
        semantic,
        styles,
        39,
        SemanticRole::Member,
        fixed.base@,
    );
    assert(capture_names()[39] == "tag"@);
}

/// Strings and values have the color of their family, or else the base color.
pub proof fn lemma_data_captures(
    fixed: FixedRoleColors,
    semantic: SemanticPlan,
    styles: Seq<SyntaxStyle>,
)
    requires
        styles_captures(fixed, semantic, styles),
    ensures

        sets_by_family(
            semantic,
            styles,
            "string"@,
            SemanticRole::String,
            fixed.base@,
        ),
        sets_by_family(
            semantic,
            styles,
            "string.escape"@,
            SemanticRole::String,
            fixed.base@,
        ),
        sets_by_family(
            semantic,
            styles,
            "string.regex"@,
            SemanticRole::String,
            fixed.base@,
        ),
        sets_by_family(
            semantic,
            styles,
            "string.special"@,
            SemanticRole::String,
            fixed.base@,
        ),
        sets_by_family(
            semantic,
            styles,
            "string.special.symbol"@,
            SemanticRole::String,
            fixed.base@,
        ),
        sets_by_family(
            semantic,
            styles,
            "boolean"@,
            SemanticRole::Value,
            fixed.base@,
        ),
        sets_by_family(
            semantic,
            styles,
            "constant"@,
            SemanticRole::Value,
            fixed.base@,
        ),
        sets_by_family(
            semantic,
            styles,
            "number"@,
            SemanticRole::Value,
            fixed.base@,
        ),
        sets_by_family(
            semantic,
            styles,
            "text.literal"@,
            SemanticRole::Value,
            fixed.base@,
        ),
        sets_by_family(
            semantic,
            styles,
            "variant"@,
            SemanticRole::Value,
            fixed.base@,
        ),
{
    lemma_family_capture(
        fixed,
        semantic,
        styles,
        34,
        SemanticRole::String,
        fixed.base@,
    );
    assert(capture_names()[34] == "string"@);
    lemma_family_capture(
        fixed,
        semantic,
        styles,
        35,
        SemanticRole::String,
        fixed.base@,
    );
    assert(capture_names()[35] == "string.escape"@);
    lemma_family_capture(
        fixed,
        semantic,
        styles,
        36,
        SemanticRole::String,
        fixed.base@,
    );
    assert(capture_names()[36] == "string.regex"@);
    lemma_family_capture(
        fixed,
        semantic,
        styles,
        37,
        SemanticRole::String,
        fixed.base@,
    );
    assert(capture_names()[37] == "string.special"@);
    lemma_family_capture(
        fixed,
        semantic,
        styles,
        38,
        SemanticRole::String,
        fixed.base@,
    );
    assert(capture_names()[38] == "string.special.symbol"@);
    lemma_family_capture(
        fixed,
        semantic,
        styles,
        1,
        SemanticRole::Value,
        fixed.base@,
    );
    assert(capture_names()[1] == "boolean"@);
    lemma_family_capture(
        fixed,
        semantic,
        styles,
        4,
        SemanticRole::Value,
        fixed.base@,
    );
    assert(capture_names()[4] == "constant"@);
    lemma_family_capture(
        fixed,
        semantic,
        styles,
        20,
        SemanticRole::Value,
        fixed.base@,
    );
    assert(capture_names()[20] == "number"@);
    lemma_family_capture(
        fixed,
        semantic,
        styles,
        40,
        SemanticRole::Value,
        fixed.base@,
    );
    assert(capture_names()[40] == "text.literal"@);
    lemma_family_capture(
        fixed,
        semantic,
        styles,
        46,
        SemanticRole::Value,
        fixed.base@,
    );
    assert(capture_names()[46] == "variant"@);
}

/// Keywords and links have the color of their family or else the base color, and
/// hints and warnings that of their family or else the subdued one.
pub proof fn lemma_control_captures(
    fixed: FixedRoleColors,
    semantic: SemanticPlan,
    styles: Seq<SyntaxStyle>,
)
    requires
        styles_captures(fixed, semantic, styles),
    ensures

        sets_by_family(
            semantic,
            styles,
            "keyword"@,
            SemanticRole::Control,
            fixed.base@,
        ),
        sets_by_family(
            semantic,
            styles,
            "preproc"@,
            SemanticRole::Control,
            fixed.base@,
        ),
        sets_by_family(
            semantic,
            styles,
            "storageclass"@,
            SemanticRole::Control,
            fixed.base@,
        ),
        sets_by_family(
            semantic,
            styles,
            "link_text"@,
            SemanticRole::Link,
            fixed.base@,
        ),
        sets_by_family(
            semantic,
            styles,
            "link_uri"@,
            SemanticRole::Link,
            fixed.base@,
        ),
        sets_by_family(
            semantic,
            styles,
            "hint"@,
            SemanticRole::Metadata,
            fixed.subdued@,
        ),
        sets_by_family(
            semantic,
            styles,
            "warning"@,
            SemanticRole::Metadata,
            fixed.subdued@,
        ),
{
    lemma_family_capture(
        fixed,
        semantic,
        styles,
        15,
        SemanticRole::Control,
        fixed.base@,
    );
    assert(capture_names()[15] == "keyword"@);
    lemma_family_capture(
        fixed,
        semantic,
        styles,
        23,
        SemanticRole::Control,
        fixed.base@,
    );
    assert(capture_names()[23] == "preproc"@);
    lemma_family_capture(
        fixed,
        semantic,
        styles,
        52,
        SemanticRole::Control,
        fixed.base@,
    );
    assert(capture_names()[52] == "storageclass"@);
    lemma_family_capture(
        fixed,
        semantic,
        styles,
        17,
        SemanticRole::Link,
        fixed.base@,
    );
    assert(capture_names()[17] == "link_text"@);
    lemma_family_capture(
        fixed,
        semantic,
        styles,
        18,
        SemanticRole::Link,
        fixed.base@,
    );
    assert(capture_names()[18] == "link_uri"@);
    lemma_family_capture(
        fixed,
        semantic,
        styles,
        14,
        SemanticRole::Metadata,
        fixed.subdued@,
    );
    assert(capture_names()[14] == "hint"@);
    lemma_family_capture(
        fixed,
        semantic,
        styles,
        55,
        SemanticRole::Metadata,
        fixed.subdued@,
    );
    assert(capture_names()[55] == "warning"@);
}

/// Whether the capture is set in italics or not, and in the weight.
pub open spec fn sets_font(
    styles: Seq<SyntaxStyle>,
    capture: Seq<char>,
    italic: bool,
    weight: Option<u16>,
) -> bool {
    forall|i: int|
        0 <= i < styles.len() && (#[trigger] styles[i]).capture@ == capture ==> {
            &&& styles[i].font_style is Some <==> italic
            &&& styles[i].font_style matches Some(name) ==> name@ == "italic"@
            &&& styles[i].font_weight == weight
        }
}

/// Which places have captures in italics or in a weight of their own.
proof fn lemma_font_places(place: int)
    requires
        0 <= place < 56,
    ensures
        is_italic(capture_names()[place]) <==> (place == 2 || place == 3 || place == 22
            || place == 44 || place == 49 || place == 9 || place == 18),
        weight_of(capture_names()[place]) == if place == 10 || place == 41 {
            Some(700u16)
        } else if place == 13 || place == 15 || place == 23 || place == 52 || place == 14
            || place == 55 || place == 48 || place == 7 || place == 6 {
            Some(600u16)
        } else {
            None
        },
{
    let name = capture_names()[place];
    assert(capture_names()[2] == "comment"@);
    if name == "comment"@ {
        lemma_captures_are_distinct(place, 2);
    }
    assert(capture_names()[3] == "comment.doc"@);
    if name == "comment.doc"@ {
        lemma_captures_are_distinct(place, 3);
    }
    assert(capture_names()[22] == "predictive"@);
    if name == "predictive"@ {
        lemma_captures_are_distinct(place, 22);
    }
    assert(capture_names()[44] == "variable.parameter"@);
    if name == "variable.parameter"@ {
        lemma_captures_are_distinct(place, 44);
    }
    assert(capture_names()[49] == "lifetime"@);
    if name == "lifetime"@ {
        lemma_captures_are_distinct(place, 49);
    }
    assert(capture_names()[9] == "emphasis"@);
    if name == "emphasis"@ {
        lemma_captures_are_distinct(place, 9);
    }
    assert(capture_names()[18] == "link_uri"@);
    if name == "link_uri"@ {
        lemma_captures_are_distinct(place, 18);
    }
    assert(capture_names()[10] == "emphasis.strong"@);
    if name == "emphasis.strong"@ {
        lemma_captures_are_distinct(place, 10);
    }
    assert(capture_names()[41] == "title"@);
    if name == "title"@ {
        lemma_captures_are_distinct(place, 41);
    }
    assert(capture_names()[13] == "function.builtin"@);
    if name == "function.builtin"@ {
        lemma_captures_are_distinct(place, 13);
    }
    assert(capture_names()[15] == "keyword"@);
    if name == "keyword"@ {
        lemma_captures_are_distinct(place, 15);
    }
    assert(capture_names()[23] == "preproc"@);
    if name == "preproc"@ {
        lemma_captures_are_distinct(place, 23);
    }
    assert(capture_names()[52] == "storageclass"@);
    if name == "storageclass"@ {
        lemma_captures_are_distinct(place, 52);
    }
    assert(capture_names()[14] == "hint"@);
    if name == "hint"@ {
        lemma_captures_are_distinct(place, 14);
    }
    assert(capture_names()[55] == "warning"@);
    if name == "warning"@ {
        lemma_captures_are_distinct(place, 55);
    }
    assert(capture_names()[48] == "diff"@);
    if name == "diff"@ {
        lemma_captures_are_distinct(place, 48);
    }
    assert(capture_names()[7] == "diff.plus"@);
    if name == "diff.plus"@ {
        lemma_captures_are_distinct(place, 7);
    }
    assert(capture_names()[6] == "diff.minus"@);
    if name == "diff.minus"@ {
        lemma_captures_are_distinct(place, 6);
    }
}

proof fn lemma_font_place(
    fixed: FixedRoleColors,
    semantic: SemanticPlan,
    styles: Seq<SyntaxStyle>,
    place: int,
)
    requires
        styles_captures(fixed, semantic, styles),
        0 <= place < 56,
    ensures
        sets_font(
            styles,
            capture_names()[place],
            is_italic(capture_names()[place]),
            weight_of(capture_names()[place]),
        ),
{
}

/// Comments, predictions, parameters, lifetimes, emphasis and link targets are set in
/// italics; titles and strong emphasis are bold; keywords, hints, warnings and changes
/// are half bold.
pub proof fn lemma_marked_fonts(
    fixed: FixedRoleColors,
    semantic: SemanticPlan,
    styles: Seq<SyntaxStyle>,
)
    requires
        styles_captures(fixed, semantic, styles),
    ensures
        sets_font(styles, "comment"@, true, None),
        sets_font(styles, "comment.doc"@, true, None),
        sets_font(styles, "diff.minus"@, false, Some(600)),
        sets_font(styles, "diff.plus"@, false, Some(600)),
        sets_font(styles, "emphasis"@, true, None),
        sets_font(styles, "emphasis.strong"@, false, Some(700)),
        sets_font(styles, "function.builtin"@, false, Some(600)),
        sets_font(styles, "hint"@, false, Some(600)),
        sets_font(styles, "keyword"@, false, Some(600)),
        sets_font(styles, "link_uri"@, true, None),
        sets_font(styles, "predictive"@, true, None),
        sets_font(styles, "preproc"@, false, Some(600)),
        sets_font(styles, "title"@, false, Some(700)),
        sets_font(styles, "variable.parameter"@, true, None),
        sets_font(styles, "diff"@, false, Some(600)),
        sets_font(styles, "lifetime"@, true, None),
        sets_font(styles, "storageclass"@, false, Some(600)),
        sets_font(styles, "warning"@, false, Some(600)),
{
    lemma_font_place(fixed, semantic, styles, 2);
    lemma_font_places(2);
    assert(capture_names()[2] == "comment"@);
    lemma_font_place(fixed, semantic, styles, 3);
    lemma_font_places(3);
    assert(capture_names()[3] == "comment.doc"@);
    lemma_font_place(fixed, semantic, styles, 6);
    lemma_font_places(6);
    assert(capture_names()[6] == "diff.minus"@);
    lemma_font_place(fixed, semantic, styles, 7);
    lemma_font_places(7);
    assert(capture_names()[7] == "diff.plus"@);
    lemma_font_place(fixed, semantic, styles, 9);
    lemma_font_places(9);
    assert(capture_names()[9] == "emphasis"@);
    lemma_font_place(fixed, semantic, styles, 10);
    lemma_font_places(10);
    assert(capture_names()[10] == "emphasis.strong"@);
    lemma_font_place(fixed, semantic, styles, 13);
    lemma_font_places(13);
    assert(capture_names()[13] == "function.builtin"@);
    lemma_font_place(fixed, semantic, styles, 14);
    lemma_font_places(14);
    assert(capture_names()[14] == "hint"@);
    lemma_font_place(fixed, semantic, styles, 15);
    lemma_font_places(15);
    assert(capture_names()[15] == "keyword"@);
    lemma_font_place(fixed, semantic, styles, 18);
    lemma_font_places(18);
    assert(capture_names()[18] == "link_uri"@);
    lemma_font_place(fixed, semantic, styles, 22);
    lemma_font_places(22);
    assert(capture_names()[22] == "predictive"@);
    lemma_font_place(fixed, semantic, styles, 23);
    lemma_font_places(23);
    assert(capture_names()[23] == "preproc"@);
    lemma_font_place(fixed, semantic, styles, 41);
    lemma_font_places(41);
    assert(capture_names()[41] == "title"@);
    lemma_font_place(fixed, semantic, styles, 44);
    lemma_font_places(44);
    assert(capture_names()[44] == "variable.parameter"@);
    lemma_font_place(fixed, semantic, styles, 48);
    lemma_font_places(48);
    assert(capture_names()[48] == "diff"@);
    lemma_font_place(fixed, semantic, styles, 49);
    lemma_font_places(49);
    assert(capture_names()[49] == "lifetime"@);
    lemma_font_place(fixed, semantic, styles, 52);
    lemma_font_places(52);
    assert(capture_names()[52] == "storageclass"@);
    lemma_font_place(fixed, semantic, styles, 55);
    lemma_font_places(55);
    assert(capture_names()[55] == "warning"@);
}

/// Every other capture is set upright and in the ordinary weight.
pub proof fn lemma_plain_fonts(
    fixed: FixedRoleColors,
    semantic: SemanticPlan,
    styles: Seq<SyntaxStyle>,
)
    requires
        styles_captures(fixed, semantic, styles),
    ensures
        sets_font(styles, "attribute"@, false, None),
        sets_font(styles, "boolean"@, false, None),
        sets_font(styles, "constant"@, false, None),
        sets_font(styles, "constructor"@, false, None),
        sets_font(styles, "embedded"@, false, None),
        sets_font(styles, "enum"@, false, None),
        sets_font(styles, "function"@, false, None),
        sets_font(styles, "label"@, false, None),
        sets_font(styles, "link_text"@, false, None),
        sets_font(styles, "namespace"@, false, None),
        sets_font(styles, "number"@, false, None),
        sets_font(styles, "operator"@, false, None),
        sets_font(styles, "primary"@, false, None),
        sets_font(styles, "property"@, false, None),
        sets_font(styles, "punctuation"@, false, None),
        sets_font(styles, "punctuation.bracket"@, false, None),
        sets_font(styles, "punctuation.delimiter"@, false, None),
        sets_font(styles, "punctuation.list_marker"@, false, None),
        sets_font(styles, "punctuation.markup"@, false, None),
        sets_font(styles, "punctuation.special"@, false, None),
        sets_font(styles, "selector"@, false, None),
        sets_font(styles, "selector.pseudo"@, false, None),
        sets_font(styles, "string"@, false, None),
        sets_font(styles, "string.escape"@, false, None),
        sets_font(styles, "string.regex"@, false, None),
        sets_font(styles, "string.special"@, false, None),
        sets_font(styles, "string.special.symbol"@, false, None),
        sets_font(styles, "tag"@, false, None),
        sets_font(styles, "text.literal"@, false, None),
        sets_font(styles, "type"@, false, None),
        sets_font(styles, "variable"@, false, None),
        sets_font(styles, "variable.special"@, false, None),
        sets_font(styles, "variant"@, false, None),
        sets_font(styles, "concept"@, false, None),
        sets_font(styles, "markup"@, false, None),
        sets_font(styles, "module"@, false, None),
        sets_font(styles, "strikethrough"@, false, None),
        sets_font(styles, "text"@, false, None),
{
    lemma_font_place(fixed, semantic, styles, 0);
    lemma_font_places(0);
    assert(capture_names()[0] == "attribute"@);
    lemma_font_place(fixed, semantic, styles, 1);
    lemma_font_places(1);
    assert(capture_names()[1] == "boolean"@);
    lemma_font_place(fixed, semantic, styles, 4);
    lemma_font_places(4);
    assert(capture_names()[4] == "constant"@);
    lemma_font_place(fixed, semantic, styles, 5);
    lemma_font_places(5);
    assert(capture_names()[5] == "constructor"@);
    lemma_font_place(fixed, semantic, styles, 8);
    lemma_font_places(8);
    assert(capture_names()[8] == "embedded"@);
    lemma_font_place(fixed, semantic, styles, 11);
    lemma_font_places(11);
    assert(capture_names()[11] == "enum"@);
    lemma_font_place(fixed, semantic, styles, 12);
    lemma_font_places(12);
    assert(capture_names()[12] == "function"@);
    lemma_font_place(fixed, semantic, styles, 16);
    lemma_font_places(16);
    assert(capture_names()[16] == "label"@);
    lemma_font_place(fixed, semantic, styles, 17);
    lemma_font_places(17);
    assert(capture_names()[17] == "link_text"@);
    lemma_font_place(fixed, semantic, styles, 19);
    lemma_font_places(19);
    assert(capture_names()[19] == "namespace"@);
    lemma_font_place(fixed, semantic, styles, 20);
    lemma_font_places(20);
    assert(capture_names()[20] == "number"@);
    lemma_font_place(fixed, semantic, styles, 21);
    lemma_font_places(21);
    assert(capture_names()[21] == "operator"@);
    lemma_font_place(fixed, semantic, styles, 24);
    lemma_font_places(24);
    assert(capture_names()[24] == "primary"@);
    lemma_font_place(fixed, semantic, styles, 25);
    lemma_font_places(25);
    assert(capture_names()[25] == "property"@);
    lemma_font_place(fixed, semantic, styles, 26);
    lemma_font_places(26);
    assert(capture_names()[26] == "punctuation"@);
    lemma_font_place(fixed, semantic, styles, 27);
    lemma_font_places(27);
    assert(capture_names()[27] == "punctuation.bracket"@);
    lemma_font_place(fixed, semantic, styles, 28);
    lemma_font_places(28);
    assert(capture_names()[28] == "punctuation.delimiter"@);
    lemma_font_place(fixed, semantic, styles, 29);
    lemma_font_places(29);
    assert(capture_names()[29] == "punctuation.list_marker"@);
    lemma_font_place(fixed, semantic, styles, 30);
    lemma_font_places(30);
    assert(capture_names()[30] == "punctuation.markup"@);
    lemma_font_place(fixed, semantic, styles, 31);
    lemma_font_places(31);
    assert(capture_names()[31] == "punctuation.special"@);
    lemma_font_place(fixed, semantic, styles, 32);
    lemma_font_places(32);
    assert(capture_names()[32] == "selector"@);
    lemma_font_place(fixed, semantic, styles, 33);
    lemma_font_places(33);
    assert(capture_names()[33] == "selector.pseudo"@);
    lemma_font_place(fixed, semantic, styles, 34);
    lemma_font_places(34);
    assert(capture_names()[34] == "string"@);
    lemma_font_place(fixed, semantic, styles, 35);
    lemma_font_places(35);
    assert(capture_names()[35] == "string.escape"@);
    lemma_font_place(fixed, semantic, styles, 36);
    lemma_font_places(36);
    assert(capture_names()[36] == "string.regex"@);
    lemma_font_place(fixed, semantic, styles, 37);
    lemma_font_places(37);
    assert(capture_names()[37] == "string.special"@);
    lemma_font_place(fixed, semantic, styles, 38);
    lemma_font_places(38);
    assert(capture_names()[38] == "string.special.symbol"@);
    lemma_font_place(fixed, semantic, styles, 39);
    lemma_font_places(39);
    assert(capture_names()[39] == "tag"@);
    lemma_font_place(fixed, semantic, styles, 40);
    lemma_font_places(40);
    assert(capture_names()[40] == "text.literal"@);
    lemma_font_place(fixed, semantic, styles, 42);
    lemma_font_places(42);
    assert(capture_names()[42] == "type"@);
    lemma_font_place(fixed, semantic, styles, 43);
    lemma_font_places(43);
    assert(capture_names()[43] == "variable"@);
    lemma_font_place(fixed, semantic, styles, 45);
    lemma_font_places(45);
    assert(capture_names()[45] == "variable.special"@);
    lemma_font_place(fixed, semantic, styles, 46);
    lemma_font_places(46);
    assert(capture_names()[46] == "variant"@);
    lemma_font_place(fixed, semantic, styles, 47);
    lemma_font_places(47);
    assert(capture_names()[47] == "concept"@);
    lemma_font_place(fixed, semantic, styles, 50);
    lemma_font_places(50);
    assert(capture_names()[50] == "markup"@);
    lemma_font_place(fixed, semantic, styles, 51);
    lemma_font_places(51);
    assert(capture_names()[51] == "module"@);
    lemma_font_place(fixed, semantic, styles, 53);
    lemma_font_places(53);
    assert(capture_names()[53] == "strikethrough"@);
    lemma_font_place(fixed, semantic, styles, 54);
    lemma_font_places(54);
    assert(capture_names()[54] == "text"@);
}

/// Whether the capture keeps the two contrasts, in thousandths: on plain text and under
/// overlays.
pub open spec fn keeps_floors(capture: Seq<char>, plain: u32, overlay: u32) -> bool {
    role_of(capture) matches Some(role) && role_floor(role) == plain && role_overlay_floor(role)
        == overlay
}

proof fn lemma_role_at(place: int)
    requires
        0 <= place < 56,
    ensures
        role_of(capture_names()[place]) == Some(CAPTURE_ROLES@[place]),
{
    let name = capture_names()[place];
    assert forall|i: int| 0 <= i < place implies #[trigger] capture_names()[i] != name by {
        if capture_names()[i] == name {
            lemma_captures_are_distinct(i, place);
        }
    }
    assert(is_capture_at(name, place));
    assert(capture_names().contains(name));
    let chosen = choose|index: int| is_capture_at(name, index);
    lemma_captures_are_distinct(chosen, place);
}

/// Plain text keeps its contrast under overlays, and comments and the marks between
/// words give most of theirs up.
pub proof fn lemma_plain_floors()
    ensures
        keeps_floors("comment"@, 3020, 1300),
        keeps_floors("comment.doc"@, 3020, 1300),
        keeps_floors("embedded"@, 4520, 4520),
        keeps_floors("emphasis"@, 4520, 4520),
        keeps_floors("emphasis.strong"@, 4520, 4520),
        keeps_floors("label"@, 4520, 4520),
        keeps_floors("operator"@, 4520, 4520),
        keeps_floors("primary"@, 4520, 4520),
        keeps_floors("punctuation"@, 3020, 1300),
        keeps_floors("punctuation.bracket"@, 4520, 4520),
        keeps_floors("punctuation.delimiter"@, 3020, 1300),
        keeps_floors("punctuation.list_marker"@, 3020, 1300),
        keeps_floors("punctuation.markup"@, 3020, 1300),
        keeps_floors("punctuation.special"@, 4520, 4520),
        keeps_floors("title"@, 4520, 4520),
        keeps_floors("variable"@, 4520, 4520),
        keeps_floors("variable.parameter"@, 4520, 4520),
        keeps_floors("variable.special"@, 4520, 4520),
        keeps_floors("markup"@, 4520, 4520),
        keeps_floors("strikethrough"@, 3020, 1300),
        keeps_floors("text"@, 4520, 4520),
{
    lemma_role_at(2);
    assert(capture_names()[2] == "comment"@);
    lemma_role_at(3);
    assert(capture_names()[3] == "comment.doc"@);
    lemma_role_at(8);
    assert(capture_names()[8] == "embedded"@);
    lemma_role_at(9);
    assert(capture_names()[9] == "emphasis"@);
    lemma_role_at(10);
    assert(capture_names()[10] == "emphasis.strong"@);
    lemma_role_at(16);
    assert(capture_names()[16] == "label"@);
    lemma_role_at(21);
    assert(capture_names()[21] == "operator"@);
    lemma_role_at(24);
    assert(capture_names()[24] == "primary"@);
    lemma_role_at(26);
    assert(capture_names()[26] == "punctuation"@);
    lemma_role_at(27);
    assert(capture_names()[27] == "punctuation.bracket"@);
    lemma_role_at(28);
    assert(capture_names()[28] == "punctuation.delimiter"@);
    lemma_role_at(29);
    assert(capture_names()[29] == "punctuation.list_marker"@);
    lemma_role_at(30);
    assert(capture_names()[30] == "punctuation.markup"@);
    lemma_role_at(31);
    assert(capture_names()[31] == "punctuation.special"@);
    lemma_role_at(41);
    assert(capture_names()[41] == "title"@);
    lemma_role_at(43);
    assert(capture_names()[43] == "variable"@);
    lemma_role_at(44);
    assert(capture_names()[44] == "variable.parameter"@);
    lemma_role_at(45);
    assert(capture_names()[45] == "variable.special"@);
    lemma_role_at(50);
    assert(capture_names()[50] == "markup"@);
    lemma_role_at(53);
    assert(capture_names()[53] == "strikethrough"@);
    lemma_role_at(54);
    assert(capture_names()[54] == "text"@);
}

/// Changes keep their contrast under overlays, a prediction gains some there, and hints
/// and warnings give most of theirs up.
pub proof fn lemma_change_floors()
    ensures
        keeps_floors("diff.minus"@, 3520, 3520),
        keeps_floors("diff.plus"@, 3520, 3520),
        keeps_floors("hint"@, 3520, 1300),
        keeps_floors("predictive"@, 3520, 4520),
        keeps_floors("diff"@, 3520, 3520),
        keeps_floors("warning"@, 3520, 1300),
{
    lemma_role_at(6);
    assert(capture_names()[6] == "diff.minus"@);
    lemma_role_at(7);
    assert(capture_names()[7] == "diff.plus"@);
    lemma_role_at(14);
    assert(capture_names()[14] == "hint"@);
    lemma_role_at(22);
    assert(capture_names()[22] == "predictive"@);
    lemma_role_at(48);
    assert(capture_names()[48] == "diff"@);
    lemma_role_at(55);
    assert(capture_names()[55] == "warning"@);
}

/// What families color keeps the same contrast on plain text, and gives some of it up
/// under overlays.
pub proof fn lemma_family_floors()
    ensures
        keeps_floors("attribute"@, 3520, 2000),
        keeps_floors("boolean"@, 3520, 2000),
        keeps_floors("constant"@, 3520, 2000),
        keeps_floors("constructor"@, 3520, 2000),
        keeps_floors("enum"@, 3520, 2000),
        keeps_floors("function"@, 3520, 2000),
        keeps_floors("function.builtin"@, 3520, 2000),
        keeps_floors("keyword"@, 3520, 2000),
        keeps_floors("link_text"@, 3520, 2000),
        keeps_floors("link_uri"@, 3520, 2000),
        keeps_floors("namespace"@, 3520, 2000),
        keeps_floors("number"@, 3520, 2000),
        keeps_floors("preproc"@, 3520, 2000),
        keeps_floors("property"@, 3520, 2000),
        keeps_floors("selector"@, 3520, 2000),
        keeps_floors("selector.pseudo"@, 3520, 2000),
        keeps_floors("string"@, 3520, 2000),
        keeps_floors("string.escape"@, 3520, 2000),
        keeps_floors("string.regex"@, 3520, 2000),
        keeps_floors("string.special"@, 3520, 2000),
        keeps_floors("string.special.symbol"@, 3520, 2000),
        keeps_floors("tag"@, 3520, 2000),
        keeps_floors("text.literal"@, 3520, 2000),
        keeps_floors("type"@, 3520, 2000),
        keeps_floors("variant"@, 3520, 2000),
        keeps_floors("concept"@, 3520, 2000),
        keeps_floors("lifetime"@, 3520, 2000),
        keeps_floors("module"@, 3520, 2000),
        keeps_floors("storageclass"@, 3520, 2000),
{
    lemma_role_at(0);
    assert(capture_names()[0] == "attribute"@);
    lemma_role_at(1);
    assert(capture_names()[1] == "boolean"@);
    lemma_role_at(4);
    assert(capture_names()[4] == "constant"@);
    lemma_role_at(5);
    assert(capture_names()[5] == "constructor"@);
    lemma_role_at(11);
    assert(capture_names()[11] == "enum"@);
    lemma_role_at(12);
    assert(capture_names()[12] == "function"@);
    lemma_role_at(13);
    assert(capture_names()[13] == "function.builtin"@);
    lemma_role_at(15);
    assert(capture_names()[15] == "keyword"@);
    lemma_role_at(17);
    assert(capture_names()[17] == "link_text"@);
    lemma_role_at(18);
    assert(capture_names()[18] == "link_uri"@);
    lemma_role_at(19);
    assert(capture_names()[19] == "namespace"@);
    lemma_role_at(20);
    assert(capture_names()[20] == "number"@);
    lemma_role_at(23);
    assert(capture_names()[23] == "preproc"@);
    lemma_role_at(25);
    assert(capture_names()[25] == "property"@);
    lemma_role_at(32);
    assert(capture_names()[32] == "selector"@);
    lemma_role_at(33);
    assert(capture_names()[33] == "selector.pseudo"@);
    lemma_role_at(34);
    assert(capture_names()[34] == "string"@);
    lemma_role_at(35);
    assert(capture_names()[35] == "string.escape"@);
    lemma_role_at(36);
    assert(capture_names()[36] == "string.regex"@);
    lemma_role_at(37);
    assert(capture_names()[37] == "string.special"@);
    lemma_role_at(38);
    assert(capture_names()[38] == "string.special.symbol"@);
    lemma_role_at(39);
    assert(capture_names()[39] == "tag"@);
    lemma_role_at(40);
    assert(capture_names()[40] == "text.literal"@);
    lemma_role_at(42);
    assert(capture_names()[42] == "type"@);
    lemma_role_at(46);
    assert(capture_names()[46] == "variant"@);
    lemma_role_at(47);
    assert(capture_names()[47] == "concept"@);
    lemma_role_at(49);
    assert(capture_names()[49] == "lifetime"@);
    lemma_role_at(51);
    assert(capture_names()[51] == "module"@);
    lemma_role_at(52);
    assert(capture_names()[52] == "storageclass"@);
}

} // verus!
