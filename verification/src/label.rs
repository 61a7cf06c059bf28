//! Labels of rewrite rules: a name that the user supplied, or the position of
//! the rule in the rule set, both in one namespace.

use crate::text::{chars_of, decimal_text, parse_index, parse_index_of_decimal_text, push_decimal,
    read_index, string_of};
use vstd::prelude::*;
use vstd::string::StringExecFns;
use vstd::std_specs::cmp::PartialEqSpecImpl;

verus! {

/// Label identifying each rewrite rule defined over a program.
///
/// Every label has a canonical text, given by
/// [`EggvizRewriteRuleLabel::to_string`], from which
/// [`EggvizRewriteRuleLabel::from_str`] builds an equal label again.
#[derive(Debug, Hash)]
pub enum EggvizRewriteRuleLabel {
    Supplied(String),
    Indexed(usize),
}

/// What a label is: the supplied name, or the index.
pub enum LabelView {
    Supplied(Seq<char>),
    Indexed(nat),
}

impl View for EggvizRewriteRuleLabel {
    type V = LabelView;

    open spec fn view(&self) -> LabelView {
        match self {
            EggvizRewriteRuleLabel::Supplied(name) => LabelView::Supplied(name@),
            EggvizRewriteRuleLabel::Indexed(idx) => LabelView::Indexed(*idx as nat),
        }
    }
}

/// The text that every supplied label starts with.
pub open spec fn supplied_prefix() -> Seq<char> {
    seq!['r', 'w', 'r', ':']
}

/// The text that every indexed label starts with.
pub open spec fn indexed_prefix() -> Seq<char> {
    seq!['r', 'w', 'r', '#']
}

/// The canonical text of a label.
pub open spec fn label_text(l: LabelView) -> Seq<char> {
    match l {
        LabelView::Supplied(name) => supplied_prefix() + name,
        LabelView::Indexed(idx) => indexed_prefix() + decimal_text(idx),
    }
}

/// The label that a text denotes, if it denotes one. A text that starts with
/// the prefix of supplied labels denotes the supplied label of the rest; one
/// that starts with the prefix of indexed labels denotes an indexed label if
/// the rest is an index.
pub open spec fn parse_label(s: Seq<char>) -> Option<LabelView> {
    if s.len() >= 4 && s.subrange(0, 4) == supplied_prefix() {
        Some(LabelView::Supplied(s.subrange(4, s.len() as int)))
    } else if s.len() >= 4 && s.subrange(0, 4) == indexed_prefix() {
        match parse_index(s.subrange(4, s.len() as int)) {
            Some(idx) => Some(LabelView::Indexed(idx)),
            None => None,
        }
    } else {
        None
    }
}

impl Clone for EggvizRewriteRuleLabel {
    fn clone(&self) -> (r: Self)
        ensures
            r@ == self@,
    {
        match self {
            EggvizRewriteRuleLabel::Supplied(name) => EggvizRewriteRuleLabel::Supplied(
                name.clone(),
            ),
            EggvizRewriteRuleLabel::Indexed(idx) => EggvizRewriteRuleLabel::Indexed(*idx),
        }
    }
}

impl PartialEq for EggvizRewriteRuleLabel {
    fn eq(&self, other: &Self) -> (r: bool) {
        match (self, other) {
            (EggvizRewriteRuleLabel::Supplied(a), EggvizRewriteRuleLabel::Supplied(b)) => *a == *b,
            (EggvizRewriteRuleLabel::Indexed(a), EggvizRewriteRuleLabel::Indexed(b)) => *a == *b,
            _ => false,
        }
    }
}

impl PartialEqSpecImpl for EggvizRewriteRuleLabel {
    open spec fn obeys_eq_spec() -> bool {
        true
    }

    open spec fn eq_spec(&self, other: &Self) -> bool {
        self@ == other@
    }
}

impl Eq for EggvizRewriteRuleLabel {

}

impl EggvizRewriteRuleLabel {
    /// The canonical text of the label.
    pub fn to_string(&self) -> (s: String)
        ensures
            s@ == label_text(self@),
    {
        match self {
            EggvizRewriteRuleLabel::Supplied(name) => {
                proof {
                    reveal_strlit("rwr:");
                }
                let mut s = String::from_str("rwr:");
                s.append(name.as_str());
                s
            },
            EggvizRewriteRuleLabel::Indexed(idx) => {
                proof {
                    reveal_strlit("rwr#");
                }
                let mut s = String::from_str("rwr#");
                push_decimal(&mut s, *idx);
                s
            },
        }
    }

    /// The label that `s` denotes; an error if it denotes none.
    pub fn from_str(s: &str) -> (r: Result<EggvizRewriteRuleLabel, ()>)
        ensures
            match r {
                Ok(l) => parse_label(s@) == Some(l@),
                Err(_) => parse_label(s@) is None,
            },
    {
        let v = chars_of(s);
        if v.len() < 4 || v[0] != 'r' || v[1] != 'w' || v[2] != 'r' {
            return Err(());
        }
        if v[3] == ':' {
            assert(s@.subrange(0, 4) =~= supplied_prefix());
            Ok(EggvizRewriteRuleLabel::Supplied(string_of(&v, 4, v.len())))
        } else if v[3] == '#' {
            assert(s@.subrange(0, 4) =~= indexed_prefix());
            match read_index(&v, 4) {
                Some(idx) => Ok(EggvizRewriteRuleLabel::Indexed(idx)),
                None => Err(()),
            }
        } else {
            Err(())
        }
    }
}

/// Reading the canonical text of a label gives the label back.
pub proof fn label_text_round_trip(l: LabelView)
    requires
        l matches LabelView::Indexed(idx) ==> idx <= usize::MAX,
    ensures
        parse_label(label_text(l)) == Some(l),
{
    let s = label_text(l);
    match l {
        LabelView::Supplied(name) => {
            assert(s.subrange(0, 4) =~= supplied_prefix());
            assert(s.subrange(4, s.len() as int) =~= name);
        },
        LabelView::Indexed(idx) => {
            assert(s.subrange(0, 4) =~= indexed_prefix());
            assert(s.subrange(4, s.len() as int) =~= decimal_text(idx));
            parse_index_of_decimal_text(idx);
        },
    }
}

/// Two labels with one canonical text are the same label.
pub proof fn label_text_injective(a: LabelView, b: LabelView)
    requires
        a matches LabelView::Indexed(idx) ==> idx <= usize::MAX,
        b matches LabelView::Indexed(idx) ==> idx <= usize::MAX,
        label_text(a) == label_text(b),
    ensures
        a == b,
{
    label_text_round_trip(a);
    label_text_round_trip(b);
}

} // verus!
