//! Static capture policy shared by syntax construction and validation.

use crate::constants::{ADDITIONAL_SYNTAX_FIELDS, BASE_SYNTAX_FIELDS};
use crate::syntax::plan::SemanticRole;
use crate::text::{same_text, slice_views};
use vstd::prelude::*;

verus! {

// Contrast floors in thousandths.
pub const SYNTAX_PRIMARY_FLOOR: u32 = 4520;

pub const SYNTAX_SEMANTIC_FLOOR: u32 = 3520;

pub const SYNTAX_SUBDUED_FLOOR: u32 = 3020;

pub const SYNTAX_ADAPTIVE_OVERLAY_FLOOR: u32 = 2000;

pub const SYNTAX_SUBDUED_OVERLAY_FLOOR: u32 = 1300;

/// The role that colors a capture.
#[derive(Clone, Copy, Debug)]
pub struct CapturePolicy {
    pub capture: &'static str,
    pub role: SemanticRole,
}

/// The role of each capture, in the order of [`capture_names`].
pub const CAPTURE_ROLES: [SemanticRole; 56] = [
    SemanticRole::Member,
    SemanticRole::Value,
    SemanticRole::Subdued,
    SemanticRole::Subdued,
    SemanticRole::Value,
    SemanticRole::Callable,
    SemanticRole::DiffDelete,
    SemanticRole::DiffAdd,
    SemanticRole::Base,
    SemanticRole::Base,
    SemanticRole::Base,
    SemanticRole::Type,
    SemanticRole::Callable,
    SemanticRole::Callable,
    SemanticRole::Metadata,
    SemanticRole::Control,
    SemanticRole::Base,
    SemanticRole::Link,
    SemanticRole::Link,
    SemanticRole::Type,
    SemanticRole::Value,
    SemanticRole::Base,
    SemanticRole::Predictive,
    SemanticRole::Control,
    SemanticRole::Base,
    SemanticRole::Member,
    SemanticRole::Subdued,
    SemanticRole::Base,
    SemanticRole::Subdued,
    SemanticRole::Subdued,
    SemanticRole::Subdued,
    SemanticRole::Base,
    SemanticRole::Member,
    SemanticRole::Member,
    SemanticRole::String,
    SemanticRole::String,
    SemanticRole::String,
    SemanticRole::String,
    SemanticRole::String,
    SemanticRole::Member,
    SemanticRole::Value,
    SemanticRole::Base,
    SemanticRole::Type,
    SemanticRole::Base,
    SemanticRole::Base,
    SemanticRole::Base,
    SemanticRole::Value,
    SemanticRole::Type,
    SemanticRole::DiffChange,
    SemanticRole::Type,
    SemanticRole::Base,
    SemanticRole::Type,
    SemanticRole::Control,
    SemanticRole::Subdued,
    SemanticRole::Base,
    SemanticRole::Metadata,
];

/// Every capture the theme colors: the base fields, then the additional ones.
pub open spec fn capture_names() -> Seq<Seq<char>> {
    slice_views(BASE_SYNTAX_FIELDS@) + slice_views(ADDITIONAL_SYNTAX_FIELDS@)
}

/// The first position of a capture.
pub open spec fn is_capture_at(capture: Seq<char>, index: int) -> bool {
    &&& 0 <= index < capture_names().len()
    &&& capture_names()[index] == capture
    &&& forall|i: int| 0 <= i < index ==> #[trigger] capture_names()[i] != capture
}

/// The role of a capture, if the theme colors it.
pub open spec fn role_of(capture: Seq<char>) -> Option<SemanticRole> {
    if capture_names().contains(capture) {
        Some(CAPTURE_ROLES@[choose|index: int| is_capture_at(capture, index)])
    } else {
        None
    }
}

fn capture_at(index: usize) -> (policy: CapturePolicy)
    requires
        index < 56,
    ensures
        policy.capture@ == capture_names()[index as int],
        policy.role == CAPTURE_ROLES@[index as int],
{
    let capture = if index < BASE_SYNTAX_FIELDS.len() {
        BASE_SYNTAX_FIELDS[index]
    } else {
        ADDITIONAL_SYNTAX_FIELDS[index - BASE_SYNTAX_FIELDS.len()]
    };
    CapturePolicy { capture, role: CAPTURE_ROLES[index] }
}

/// Every capture with its role.
pub fn capture_policies() -> (policies: Vec<CapturePolicy>)
    ensures
        policies@.len() == capture_names().len(),
        forall|i: int|
            0 <= i < policies@.len() ==> (#[trigger] policies@[i]).capture@ == capture_names()[i]
                && policies@[i].role == CAPTURE_ROLES@[i],
{
    let mut policies: Vec<CapturePolicy> = Vec::new();
    let mut index: usize = 0;
    while index < 56
        invariant
            index <= 56,
            policies@.len() == index,
            forall|i: int|
                0 <= i < policies@.len() ==> (#[trigger] policies@[i]).capture@
                    == capture_names()[i] && policies@[i].role == CAPTURE_ROLES@[i],
        decreases 56 - index,
    {
        policies.push(capture_at(index));
        index += 1;
    }
    policies
}

/// The policy of a capture.
pub fn capture_policy(capture: &str) -> (found: Option<CapturePolicy>)
    ensures
        found is Some <==> capture_names().contains(capture@),
        found matches Some(policy) ==> policy.capture@ == capture@ && Some(policy.role) == role_of(
            capture@,
        ),
{
    let mut index: usize = 0;
    while index < 56
        invariant
            index <= 56,
            forall|i: int| 0 <= i < index ==> #[trigger] capture_names()[i] != capture@,
        decreases 56 - index,
    {
        let policy = capture_at(index);
        if same_text(policy.capture, capture) {
            proof {
                assert(capture_names()[index as int] == capture@);
                assert(is_capture_at(capture@, index as int));
                let chosen = choose|at: int| is_capture_at(capture@, at);
                assert(chosen == index);
            }
            return Some(policy);
        }
        index += 1;
    }
    None
}

/// The contrast floor of a role on plain text, in thousandths.
pub open spec fn role_floor(role: SemanticRole) -> u32 {
    match role {
        SemanticRole::Base => SYNTAX_PRIMARY_FLOOR,
        SemanticRole::Subdued => SYNTAX_SUBDUED_FLOOR,
        _ => SYNTAX_SEMANTIC_FLOOR,
    }
}

/// The contrast floor of a role under overlays, in thousandths.
pub open spec fn role_overlay_floor(role: SemanticRole) -> u32 {
    match role {
        SemanticRole::Base | SemanticRole::Predictive => SYNTAX_PRIMARY_FLOOR,
        SemanticRole::DiffChange
        | SemanticRole::DiffAdd
        | SemanticRole::DiffDelete => SYNTAX_SEMANTIC_FLOOR,
        SemanticRole::Subdued | SemanticRole::Metadata => SYNTAX_SUBDUED_OVERLAY_FLOOR,
        _ => SYNTAX_ADAPTIVE_OVERLAY_FLOOR,
    }
}

/// The contrast a capture keeps on plain text, in thousandths.
pub fn contrast_floor(capture: &str) -> (floor: Option<u32>)
    ensures
        floor == match role_of(capture@) {
            Some(role) => Some(role_floor(role)),
            None => None,
        },
{
    match capture_policy(capture) {
        Some(policy) => Some(
            match policy.role {
                SemanticRole::Base => SYNTAX_PRIMARY_FLOOR,
                SemanticRole::Subdued => SYNTAX_SUBDUED_FLOOR,
                _ => SYNTAX_SEMANTIC_FLOOR,
            },
        ),
        None => None,
    }
}

/// The contrast a capture keeps under overlays, in thousandths.
pub fn overlay_contrast_floor(capture: &str) -> (floor: Option<u32>)
    ensures
        floor == match role_of(capture@) {
            Some(role) => Some(role_overlay_floor(role)),
            None => None,
        },
{
    match capture_policy(capture) {
        Some(policy) => Some(
            match policy.role {
                SemanticRole::Base | SemanticRole::Predictive => SYNTAX_PRIMARY_FLOOR,
                SemanticRole::DiffChange
                | SemanticRole::DiffAdd
                | SemanticRole::DiffDelete => SYNTAX_SEMANTIC_FLOOR,
                SemanticRole::Subdued | SemanticRole::Metadata => SYNTAX_SUBDUED_OVERLAY_FLOOR,
                _ => SYNTAX_ADAPTIVE_OVERLAY_FLOOR,
            },
        ),
        None => None,
    }
}

/// A role never needs more contrast under overlays than on plain text, unless it
/// is the predictive role, and only adaptive tones need less.
pub proof fn lemma_overlay_floor_relaxes(role: SemanticRole)
    ensures
        role != SemanticRole::Predictive ==> role_overlay_floor(role) <= role_floor(role),
        role == SemanticRole::Base || role.is_diff() ==> role_overlay_floor(role) == role_floor(
            role,
        ),
{
}

/// The number of a capture, read off the length of its name and a few characters.
/// Names with different numbers are different.
#[verifier::opaque]
spec fn capture_number(name: Seq<char>) -> int {
    if name.len() == 3 {
        39
    } else if name.len() == 4 {
        if name[2] == 'f' {
            48
        } else if name[2] == 'n' {
            14
        } else if name[2] == 'p' {
            42
        } else if name[2] == 'u' {
            11
        } else {
            54
        }
    } else if name.len() == 5 {
        if name[0] == 'l' {
            16
        } else {
            41
        }
    } else if name.len() == 6 {
        if name[1] == 'a' {
            50
        } else if name[1] == 'o' {
            51
        } else if name[1] == 't' {
            34
        } else {
            20
        }
    } else if name.len() == 7 {
        if name[0] == 'b' {
            1
        } else if name[0] == 'c' {
            if name[2] == 'm' {
                2
            } else {
                47
            }
        } else if name[0] == 'k' {
            15
        } else if name[0] == 'p' {
            if name[2] == 'e' {
                23
            } else {
                24
            }
        } else if name[0] == 'v' {
            46
        } else {
            55
        }
    } else if name.len() == 8 {
        if name[0] == 'c' {
            4
        } else if name[0] == 'e' {
            if name[2] == 'b' {
                8
            } else {
                9
            }
        } else if name[0] == 'f' {
            12
        } else if name[0] == 'l' {
            if name[2] == 'f' {
                49
            } else {
                18
            }
        } else if name[0] == 'o' {
            21
        } else if name[0] == 'p' {
            25
        } else if name[0] == 's' {
            32
        } else {
            43
        }
    } else if name.len() == 9 {
        if name[0] == 'a' {
            0
        } else if name[0] == 'd' {
            7
        } else if name[0] == 'l' {
            17
        } else {
            19
        }
    } else if name.len() == 10 {
        if name[0] == 'd' {
            6
        } else {
            22
        }
    } else if name.len() == 11 {
        if name[3] == 'c' {
            26
        } else if name[3] == 'm' {
            3
        } else {
            5
        }
    } else if name.len() == 12 {
        if name[2] == 'o' {
            52
        } else if name[2] == 'r' {
            36
        } else {
            40
        }
    } else if name.len() == 13 {
        if name[4] == 'k' {
            53
        } else {
            35
        }
    } else if name.len() == 14 {
        37
    } else if name.len() == 15 {
        if name[0] == 'e' {
            10
        } else {
            33
        }
    } else if name.len() == 16 {
        if name[0] == 'f' {
            13
        } else {
            45
        }
    } else if name.len() == 18 {
        if name[0] == 'p' {
            30
        } else {
            44
        }
    } else if name.len() == 19 {
        if name[12] == 'b' {
            27
        } else {
            31
        }
    } else if name.len() == 21 {
        if name[0] == 'p' {
            28
        } else {
            38
        }
    } else {
        29
    }
}

proof fn lemma_first_capture_numbers(index: int)
    requires
        0 <= index < 28,
    ensures
        capture_number(capture_names()[index]) == index,
{
    reveal(capture_number);
    if index == 0 {
        reveal_strlit("attribute");
        assert(capture_names()[0] == "attribute"@);
    } else if index == 1 {
        reveal_strlit("boolean");
        assert(capture_names()[1] == "boolean"@);
    } else if index == 2 {
        reveal_strlit("comment");
        assert(capture_names()[2] == "comment"@);
    } else if index == 3 {
        reveal_strlit("comment.doc");
        assert(capture_names()[3] == "comment.doc"@);
    } else if index == 4 {
        reveal_strlit("constant");
        assert(capture_names()[4] == "constant"@);
    } else if index == 5 {
        reveal_strlit("constructor");
        assert(capture_names()[5] == "constructor"@);
    } else if index == 6 {
        reveal_strlit("diff.minus");
        assert(capture_names()[6] == "diff.minus"@);
    } else if index == 7 {
        reveal_strlit("diff.plus");
        assert(capture_names()[7] == "diff.plus"@);
    } else if index == 8 {
        reveal_strlit("embedded");
        assert(capture_names()[8] == "embedded"@);
    } else if index == 9 {
        reveal_strlit("emphasis");
        assert(capture_names()[9] == "emphasis"@);
    } else if index == 10 {
        reveal_strlit("emphasis.strong");
        assert(capture_names()[10] == "emphasis.strong"@);
    } else if index == 11 {
        reveal_strlit("enum");
        assert(capture_names()[11] == "enum"@);
    } else if index == 12 {
        reveal_strlit("function");
        assert(capture_names()[12] == "function"@);
    } else if index == 13 {
        reveal_strlit("function.builtin");
        assert(capture_names()[13] == "function.builtin"@);
    } else if index == 14 {
        reveal_strlit("hint");
        assert(capture_names()[14] == "hint"@);
    } else if index == 15 {
        reveal_strlit("keyword");
        assert(capture_names()[15] == "keyword"@);
    } else if index == 16 {
        reveal_strlit("label");
        assert(capture_names()[16] == "label"@);
    } else if index == 17 {
        reveal_strlit("link_text");
        assert(capture_names()[17] == "link_text"@);
    } else if index == 18 {
        reveal_strlit("link_uri");
        assert(capture_names()[18] == "link_uri"@);
    } else if index == 19 {
        reveal_strlit("namespace");
        assert(capture_names()[19] == "namespace"@);
    } else if index == 20 {
        reveal_strlit("number");
        assert(capture_names()[20] == "number"@);
    } else if index == 21 {
        reveal_strlit("operator");
        assert(capture_names()[21] == "operator"@);
    } else if index == 22 {
        reveal_strlit("predictive");
        assert(capture_names()[22] == "predictive"@);
    } else if index == 23 {
        reveal_strlit("preproc");
        assert(capture_names()[23] == "preproc"@);
    } else if index == 24 {
        reveal_strlit("primary");
        assert(capture_names()[24] == "primary"@);
    } else if index == 25 {
        reveal_strlit("property");
        assert(capture_names()[25] == "property"@);
    } else if index == 26 {
        reveal_strlit("punctuation");
        assert(capture_names()[26] == "punctuation"@);
    } else if index == 27 {
        reveal_strlit("punctuation.bracket");
        assert(capture_names()[27] == "punctuation.bracket"@);
    }
}

proof fn lemma_second_capture_numbers(index: int)
    requires
        28 <= index < 56,
    ensures
        capture_number(capture_names()[index]) == index,
{
    reveal(capture_number);
    if index == 28 {
        reveal_strlit("punctuation.delimiter");
        assert(capture_names()[28] == "punctuation.delimiter"@);
    } else if index == 29 {
        reveal_strlit("punctuation.list_marker");
        assert(capture_names()[29] == "punctuation.list_marker"@);
    } else if index == 30 {
        reveal_strlit("punctuation.markup");
        assert(capture_names()[30] == "punctuation.markup"@);
    } else if index == 31 {
        reveal_strlit("punctuation.special");
        assert(capture_names()[31] == "punctuation.special"@);
    } else if index == 32 {
        reveal_strlit("selector");
        assert(capture_names()[32] == "selector"@);
    } else if index == 33 {
        reveal_strlit("selector.pseudo");
        assert(capture_names()[33] == "selector.pseudo"@);
    } else if index == 34 {
        reveal_strlit("string");
        assert(capture_names()[34] == "string"@);
    } else if index == 35 {
        reveal_strlit("string.escape");
        assert(capture_names()[35] == "string.escape"@);
    } else if index == 36 {
        reveal_strlit("string.regex");
        assert(capture_names()[36] == "string.regex"@);
    } else if index == 37 {
        reveal_strlit("string.special");
        assert(capture_names()[37] == "string.special"@);
    } else if index == 38 {
        reveal_strlit("string.special.symbol");
        assert(capture_names()[38] == "string.special.symbol"@);
    } else if index == 39 {
        reveal_strlit("tag");
        assert(capture_names()[39] == "tag"@);
    } else if index == 40 {
        reveal_strlit("text.literal");
        assert(capture_names()[40] == "text.literal"@);
    } else if index == 41 {
        reveal_strlit("title");
        assert(capture_names()[41] == "title"@);
    } else if index == 42 {
        reveal_strlit("type");
        assert(capture_names()[42] == "type"@);
    } else if index == 43 {
        reveal_strlit("variable");
        assert(capture_names()[43] == "variable"@);
    } else if index == 44 {
        reveal_strlit("variable.parameter");
        assert(capture_names()[44] == "variable.parameter"@);
    } else if index == 45 {
        reveal_strlit("variable.special");
        assert(capture_names()[45] == "variable.special"@);
    } else if index == 46 {
        reveal_strlit("variant");
        assert(capture_names()[46] == "variant"@);
    } else if index == 47 {
        reveal_strlit("concept");
        assert(capture_names()[47] == "concept"@);
    } else if index == 48 {
        reveal_strlit("diff");
        assert(capture_names()[48] == "diff"@);
    } else if index == 49 {
        reveal_strlit("lifetime");
        assert(capture_names()[49] == "lifetime"@);
    } else if index == 50 {
        reveal_strlit("markup");
        assert(capture_names()[50] == "markup"@);
    } else if index == 51 {
        reveal_strlit("module");
        assert(capture_names()[51] == "module"@);
    } else if index == 52 {
        reveal_strlit("storageclass");
        assert(capture_names()[52] == "storageclass"@);
    } else if index == 53 {
        reveal_strlit("strikethrough");
        assert(capture_names()[53] == "strikethrough"@);
    } else if index == 54 {
        reveal_strlit("text");
        assert(capture_names()[54] == "text"@);
    } else if index == 55 {
        reveal_strlit("warning");
        assert(capture_names()[55] == "warning"@);
    }
}

/// No capture is named twice.
pub proof fn lemma_captures_are_distinct(first: int, second: int)
    requires
        0 <= first < capture_names().len(),
        0 <= second < capture_names().len(),
        capture_names()[first] == capture_names()[second],
    ensures
        first == second,
{
    if first < 28 {
        lemma_first_capture_numbers(first);
    } else {
        lemma_second_capture_numbers(first);
    }
    if second < 28 {
        lemma_first_capture_numbers(second);
    } else {
        lemma_second_capture_numbers(second);
    }
}

} // verus!
