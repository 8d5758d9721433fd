//! Small rules on dashboard blocks: which properties are worth showing when
//! debugging a binding, a checkbox's label and where a control's value is
//! kept.

use crate::model::Block;
use crate::properties::{prop, property_get};
use crate::text::{
    ascii_lower_chars, ascii_lower_seq, chars_contains, chars_eq, chars_of, contains_seq,
    copy_range, decimal, decimal_chars, string_of, trim, trim_chars,
};
use vstd::prelude::*;

verus! {

/// Whether a property name (in ASCII lower case) concerns a dashboard
/// binding: it mentions a binding, uuid, signal, param, dashboard, widget,
/// hmi, element or ref, or is exactly `sid`.
pub open spec fn is_debug_property(name: Seq<char>) -> bool {
    let lower = ascii_lower_seq(name);
    contains_seq(lower, "binding"@) || contains_seq(lower, "uuid"@) || contains_seq(lower, "signal"@)
        || contains_seq(lower, "param"@) || contains_seq(lower, "dashboard"@) || contains_seq(
        lower,
        "widget"@,
    ) || contains_seq(lower, "hmi"@) || lower == "sid"@ || contains_seq(lower, "element"@)
        || contains_seq(lower, "ref"@)
}

/// Whether a property name concerns a dashboard binding.
pub fn is_dashboard_debug_property(name: &str) -> (r: bool)
    ensures
        r == is_debug_property(name@),
{
    let cs = chars_of(name);
    let lower = ascii_lower_chars(cs.as_slice());
    let l = lower.as_slice();
    chars_contains(l, chars_of("binding").as_slice()) || chars_contains(l, chars_of("uuid").as_slice())
        || chars_contains(l, chars_of("signal").as_slice()) || chars_contains(
        l,
        chars_of("param").as_slice(),
    ) || chars_contains(l, chars_of("dashboard").as_slice()) || chars_contains(
        l,
        chars_of("widget").as_slice(),
    ) || chars_contains(l, chars_of("hmi").as_slice()) || chars_eq(l, chars_of("sid").as_slice())
        || chars_contains(l, chars_of("element").as_slice()) || chars_contains(
        l,
        chars_of("ref").as_slice(),
    )
}

/// The label of a checkbox: its `Label`, else its `Text`, else `Label`.
pub open spec fn checkbox_label_spec(block: Block) -> Seq<char> {
    match prop(block.properties, "Label"@) {
        Some(l) => l,
        None => match prop(block.properties, "Text"@) {
            Some(t) => t,
            None => "Label"@,
        },
    }
}

/// The label of a checkbox.
pub fn checkbox_label(block: &Block) -> (r: String)
    ensures
        r@ == checkbox_label_spec(*block),
{
    match property_get(&block.properties, "Label") {
        Some(l) => l.clone(),
        None => match property_get(&block.properties, "Text") {
            Some(t) => t.clone(),
            None => "Label".to_string(),
        },
    }
}

/// The key a dashboard control's value is kept under: its SID, else its
/// name.
pub fn dashboard_control_storage_key(block: &Block) -> (r: String)
    ensures
        r@ == match block.sid {
            Some(s) => s@,
            None => block.name@,
        },
{
    match &block.sid {
        Some(s) => s.clone(),
        None => block.name.clone(),
    }
}

/// Whether `c` separates the entries of a `Values` list (line break, comma
/// or semicolon).
pub open spec fn is_option_separator(c: char) -> bool {
    c == '\n' || c == ',' || c == ';'
}

/// `s` cut at every separator, empty pieces included.
pub open spec fn option_pieces(s: Seq<char>) -> Seq<Seq<char>>
    decreases s.len(),
{
    if s.len() == 0 {
        seq![Seq::empty()]
    } else {
        let p = option_pieces(s.drop_last());
        if is_option_separator(s.last()) {
            p.push(Seq::empty())
        } else {
            p.update(p.len() - 1, p.last().push(s.last()))
        }
    }
}

/// The position of the last `:` of `e` before position `k`.
pub open spec fn last_colon_before(e: Seq<char>, k: int) -> Option<int>
    decreases k,
{
    if k <= 0 || k > e.len() {
        None
    } else if e[k - 1] == ':' {
        Some(k - 1)
    } else {
        last_colon_before(e, k - 1)
    }
}

/// The label of a `Values` entry: what precedes its last `:` (trimmed), or
/// the whole entry.
pub open spec fn entry_label(e: Seq<char>) -> Seq<char> {
    match last_colon_before(e, e.len() as int) {
        Some(i) => trim(e.subrange(0, i)),
        None => e,
    }
}

/// The labels of the non-blank pieces, each trimmed first.
pub open spec fn labels_of(pieces: Seq<Seq<char>>) -> Seq<Seq<char>>
    decreases pieces.len(),
{
    if pieces.len() == 0 {
        Seq::empty()
    } else {
        let prev = labels_of(pieces.drop_last());
        let t = trim(pieces.last());
        if t.len() > 0 {
            prev.push(entry_label(t))
        } else {
            prev
        }
    }
}

/// The option labels of a combo box or radio group: the labels of its
/// `Values` entries, or `Label 1`..`Label 3` when there are none.
pub open spec fn option_labels_spec(block: Block) -> Seq<Seq<char>> {
    let labels = match prop(block.properties, "Values"@) {
        Some(v) => labels_of(option_pieces(v)),
        None => Seq::empty(),
    };
    if labels.len() == 0 {
        seq!["Label 1"@, "Label 2"@, "Label 3"@]
    } else {
        labels
    }
}

/// The label of a trimmed, non-blank `Values` entry.
fn entry_label_exec(e: &Vec<char>) -> (r: Vec<char>)
    ensures
        r@ == entry_label(e@),
{
    let mut k: usize = e.len();
    while k > 0
        invariant
            k <= e@.len(),
            last_colon_before(e@, e@.len() as int) == last_colon_before(e@, k as int),
        decreases k,
    {
        if e[k - 1] == ':' {
            let head = copy_range(e.as_slice(), 0, k - 1);
            return trim_chars(head.as_slice());
        }
        k = k - 1;
    }
    copy_range(e.as_slice(), 0, e.len())
}

/// The option labels of a combo box or radio group.
pub fn option_labels(block: &Block) -> (r: Vec<String>)
    ensures
        r@.map_values(|s: String| s@) == option_labels_spec(*block),
{
    let mut labels: Vec<String> = Vec::new();
    if let Some(v) = property_get(&block.properties, "Values") {
        let s = chars_of(v.as_str());
        let mut cur: Vec<char> = Vec::new();
        let ghost mut done: Seq<Seq<char>> = Seq::empty();
        let mut i: usize = 0;
        assert(s@.take(0) =~= Seq::<char>::empty());
        assert(labels@.map_values(|x: String| x@) =~= labels_of(done));
        while i < s.len()
            invariant
                i <= s@.len(),
                option_pieces(s@.take(i as int)) == done.push(cur@),
                labels@.map_values(|x: String| x@) == labels_of(done),
            decreases s@.len() - i,
        {
            let c = s[i];
            assert(s@.take(i + 1).drop_last() =~= s@.take(i as int));
            assert(s@.take(i + 1).last() == c);
            if c == '\n' || c == ',' || c == ';' {
                let t = trim_chars(cur.as_slice());
                let ghost before = labels@;
                proof {
                    assert(done.push(cur@).drop_last() =~= done);
                }
                if t.len() > 0 {
                    let l = entry_label_exec(&t);
                    labels.push(string_of(l.as_slice()));
                    assert(labels@.map_values(|x: String| x@) =~= before.map_values(|x: String| x@).push(
                        entry_label(t@),
                    ));
                }
                proof {
                    done = done.push(cur@);
                }
                cur = Vec::new();
                assert(option_pieces(s@.take(i + 1)) =~= done.push(cur@));
            } else {
                cur.push(c);
                assert(option_pieces(s@.take(i + 1)) =~= done.push(cur@));
            }
            i = i + 1;
        }
        assert(s@.take(s@.len() as int) =~= s@);
        let t = trim_chars(cur.as_slice());
        let ghost before = labels@;
        proof {
            assert(done.push(cur@).drop_last() =~= done);
        }
        if t.len() > 0 {
            let l = entry_label_exec(&t);
            labels.push(string_of(l.as_slice()));
            assert(labels@.map_values(|x: String| x@) =~= before.map_values(|x: String| x@).push(
                entry_label(t@),
            ));
        }
    } else {
        assert(labels@.map_values(|x: String| x@) =~= Seq::<Seq<char>>::empty());
    }
    if labels.len() == 0 {
        let mut d: Vec<String> = Vec::new();
        d.push("Label 1".to_string());
        d.push("Label 2".to_string());
        d.push("Label 3".to_string());
        assert(d@.map_values(|x: String| x@) =~= seq!["Label 1"@, "Label 2"@, "Label 3"@]);
        d
    } else {
        labels
    }
}

/// The label of option `index` of a combo box, or `Label <index + 1>` past
/// its options.
pub fn combo_box_label(block: &Block, index: usize) -> (r: String)
    requires
        index < usize::MAX,
    ensures
        r@ == if index < option_labels_spec(*block).len() {
            option_labels_spec(*block)[index as int]
        } else {
            "Label "@ + decimal((index + 1) as nat)
        },
{
    let labels = option_labels(block);
    if index < labels.len() {
        assert(labels@.map_values(|x: String| x@)[index as int] == labels@[index as int]@);
        labels[index].clone()
    } else {
        let mut out = chars_of("Label ");
        let d = decimal_chars((index + 1) as u64);
        crate::connection_targets::topology::push_chars(&mut out, d.as_slice());
        string_of(out.as_slice())
    }
}

} // verus!
