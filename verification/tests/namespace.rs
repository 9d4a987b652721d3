use draca::namespace::{Namespace, NamespaceItem};
use draca::text::{decimal_string, join_strings, rank_str, split, str_eq, Rank};

fn strings(parts: &[&str]) -> Vec<String> {
    parts.iter().map(|p| p.to_string()).collect()
}

#[test]
fn namespace_from_str_splits_on_double_colon() {
    let ns = Namespace::from_str("std::math");
    assert_eq!(ns, Namespace::new(strings(&["std", "math"])));
    assert_eq!(ns.as_str("::"), "std::math");
    assert_eq!(ns.as_str("/"), "std/math");
    assert_eq!(ns.len(), 2);
}

#[test]
fn namespace_from_string_is_from_str() {
    assert_eq!(Namespace::from_string(String::from("a::b::c")), Namespace::from_str("a::b::c"));
    assert_eq!(
        NamespaceItem::from_string(String::from("a::b::c")),
        NamespaceItem::from_str("a::b::c")
    );
}

#[test]
fn splitting_keeps_empty_fragments() {
    assert_eq!(split(""), strings(&[""]));
    assert_eq!(split("a"), strings(&["a"]));
    assert_eq!(split("::a"), strings(&["", "a"]));
    assert_eq!(split("a::"), strings(&["a", ""]));
    assert_eq!(split("a::::b"), strings(&["a", "", "b"]));
    assert_eq!(split("a:::b"), strings(&["a", ":b"]));
    assert_eq!(split("a:b"), strings(&["a:b"]));
    assert_eq!(split("std::cmp::/="), strings(&["std", "cmp", "/="]));
}

#[test]
fn splitting_is_what_std_does() {
    for text in ["", ":", "::", ":::", "::::", "a::b", "a:::b::", "x::y::z", "é::ü", "a::b:c"] {
        let expected: Vec<String> = text.split("::").map(ToString::to_string).collect();
        assert_eq!(split(text), expected, "splitting {text:?}");
    }
}

#[test]
fn joining_a_split_gives_the_text_back() {
    for text in ["", "a", "a::b", "::", "a:::b", "std::math::consts::pi"] {
        assert_eq!(join_strings(&split(text), "::"), text);
        assert_eq!(Namespace::from_str(text).to_string(), text);
    }
}

#[test]
fn joining_puts_the_separator_between() {
    assert_eq!(join_strings(&strings(&[]), ", "), "");
    assert_eq!(join_strings(&strings(&["a"]), ", "), "a");
    assert_eq!(join_strings(&strings(&["a", "b", "c"]), ", "), "a, b, c");
}

#[test]
fn push_appends_a_fragment() {
    let mut ns = Namespace::from_str("std");
    ns.push("math");
    assert_eq!(ns, Namespace::from_str("std::math"));
}

#[test]
fn join_makes_a_key_inside_the_namespace() {
    let item = Namespace::from_str("std::math").join("+");
    assert_eq!(item, NamespaceItem::from_str("std::math::+"));
    assert_eq!(item, NamespaceItem::in_namespace(Namespace::from_str("std::math"), "+"));
}

#[test]
fn item_from_str_takes_last_fragment_as_target() {
    let item = NamespaceItem::from_str("std::math::+");
    assert_eq!(item.target(), "+");
    assert_eq!(item.frags(), Namespace::from_str("std::math"));
    assert_eq!(item.to_string(), "std::math::+");
    assert!(item.is_text("std::math::+"));
    assert!(!item.is_text("std::math::-"));
}

#[test]
fn an_unqualified_item_has_an_empty_namespace() {
    let item = NamespaceItem::from_str("x");
    assert_eq!(item.target(), "x");
    assert_eq!(item.frags(), Namespace::new(Vec::new()));
    assert_eq!(item.frags().len(), 0);
    assert_eq!(item.to_string(), "::x");
}

#[test]
fn items_are_ordered_by_namespace_then_target() {
    let a = NamespaceItem::from_str("a::z");
    let b = NamespaceItem::from_str("b::a");
    let c = NamespaceItem::from_str("b::b");
    let d = NamespaceItem::from_str("b::a::a");
    assert_eq!(a.rank(&b), Rank::Before);
    assert_eq!(b.rank(&a), Rank::After);
    assert_eq!(b.rank(&c), Rank::Before);
    assert_eq!(b.rank(&b.clone()), Rank::Same);
    assert_eq!(c.rank(&d), Rank::Before);
    assert!(b.same(&NamespaceItem::from_str("b::a")));
    assert!(!b.same(&c));
}

#[test]
fn the_order_of_items_is_the_derived_one() {
    let texts = ["x", "a::x", "a::b::x", "b", "a::y", "::x", "a::", "é::x", "a::B", "Z::a"];
    for one in texts {
        for two in texts {
            let (a, b) = (NamespaceItem::from_str(one), NamespaceItem::from_str(two));
            let expected = match a.cmp(&b) {
                std::cmp::Ordering::Less => Rank::Before,
                std::cmp::Ordering::Equal => Rank::Same,
                std::cmp::Ordering::Greater => Rank::After,
            };
            assert_eq!(a.rank(&b), expected, "{one} against {two}");
        }
    }
}

#[test]
fn strings_are_ordered_by_code_point() {
    assert_eq!(rank_str("", ""), Rank::Same);
    assert_eq!(rank_str("", "a"), Rank::Before);
    assert_eq!(rank_str("a", ""), Rank::After);
    assert_eq!(rank_str("ab", "abc"), Rank::Before);
    assert_eq!(rank_str("abd", "abc"), Rank::After);
    assert_eq!(rank_str("Z", "a"), Rank::Before);
    assert_eq!(rank_str("z", "é"), Rank::Before);
    assert!(str_eq("same", "same"));
    assert!(!str_eq("same", "samf"));
}

#[test]
fn decimal_numerals() {
    assert_eq!(decimal_string(0), "0");
    assert_eq!(decimal_string(7), "7");
    assert_eq!(decimal_string(10), "10");
    assert_eq!(decimal_string(1203), "1203");
    assert_eq!(decimal_string(usize::MAX), usize::MAX.to_string());
}

#[test]
fn copies_are_equal() {
    let ns = Namespace::from_str("a::b");
    assert_eq!(ns.copy(), ns);
    assert!(ns.same(&ns.copy()));
    assert!(!ns.same(&Namespace::from_str("a")));
    let item = NamespaceItem::from_str("a::b");
    assert_eq!(item.copy(), item);
}
