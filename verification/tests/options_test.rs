use okaeri_configs::options::{
    to_camel_case, to_kebab_case, to_pascal_case, to_screaming_snake_case, to_snake_case, ConfigOptions, NamingStrategy,
};
use okaeri_configs::order::FieldOrder;
use std::cmp::Ordering;

#[test]
fn test_camel_case() {
    assert_eq!(to_camel_case("my_field"), "myField");
    assert_eq!(to_camel_case("my_long_field_name"), "myLongFieldName");
    assert_eq!(to_camel_case("field"), "field");
}

#[test]
fn test_pascal_case() {
    assert_eq!(to_pascal_case("my_field"), "MyField");
    assert_eq!(to_pascal_case("my_long_field_name"), "MyLongFieldName");
    assert_eq!(to_pascal_case("field"), "Field");
}

#[test]
fn test_snake_case() {
    assert_eq!(to_snake_case("myField"), "my_field");
    assert_eq!(to_snake_case("MyField"), "my_field");
    assert_eq!(to_snake_case("field"), "field");
}

#[test]
fn test_kebab_case() {
    assert_eq!(to_kebab_case("my_field"), "my-field");
    assert_eq!(to_kebab_case("myField"), "my-field");
    assert_eq!(to_kebab_case("field"), "field");
}

#[test]
fn test_screaming_snake_case() {
    assert_eq!(to_screaming_snake_case("myField"), "MY_FIELD");
    assert_eq!(to_screaming_snake_case("my_field"), "MY_FIELD");
}

#[test]
fn test_field_order_declaration() {
    let order = FieldOrder::Declaration;
    assert_eq!(order.compare("field_a", "field_b"), Ordering::Equal);
    assert_eq!(order.compare("zebra", "apple"), Ordering::Equal);
    assert_eq!(order.compare("foo", "bar"), Ordering::Equal);
}

#[test]
fn test_field_order_alphabetical() {
    let order = FieldOrder::Alphabetical;
    assert_eq!(order.compare("apple", "banana"), Ordering::Less);
    assert_eq!(order.compare("banana", "apple"), Ordering::Greater);
    assert_eq!(order.compare("apple", "apple"), Ordering::Equal);
    assert_eq!(order.compare("aaa", "zzz"), Ordering::Less);
    assert_eq!(order.compare("field_a", "field_b"), Ordering::Less);
    assert_eq!(order.compare("zebra", "apple"), Ordering::Greater);
}

#[test]
fn test_field_order_alphabetical_reverse() {
    let order = FieldOrder::AlphabeticalReverse;
    assert_eq!(order.compare("apple", "banana"), Ordering::Greater);
    assert_eq!(order.compare("banana", "apple"), Ordering::Less);
    assert_eq!(order.compare("apple", "apple"), Ordering::Equal);
    assert_eq!(order.compare("aaa", "zzz"), Ordering::Greater);
    assert_eq!(order.compare("field_a", "field_b"), Ordering::Greater);
    assert_eq!(order.compare("zebra", "apple"), Ordering::Less);
}

#[test]
fn camel_and_pascal_handle_leading_and_double_separators() {
    assert_eq!(to_camel_case("_my__field-"), "MyField");
    assert_eq!(to_pascal_case("_my__field-"), "MyField");
    assert_eq!(to_camel_case("My-Field"), "myField");
    assert_eq!(to_camel_case(""), "");
    assert_eq!(to_pascal_case("a"), "A");
}

#[test]
fn camel_and_pascal_keep_non_ascii() {
    assert_eq!(to_camel_case("élan_vital"), "élanVital");
    assert_eq!(to_pascal_case("élan_vital"), "élanVital");
}

#[test]
fn snake_and_kebab_swap_separators() {
    assert_eq!(to_snake_case("my-field"), "my_field");
    assert_eq!(to_kebab_case("my_field-x"), "my-field-x");
    assert_eq!(to_snake_case("HTTPServer"), "h_t_t_p_server");
    assert_eq!(to_kebab_case("HTTPServer"), "h-t-t-p-server");
}

#[test]
fn kebab_is_snake_with_dashes() {
    for name in ["myField", "my_field", "A-b_C", "ÉtéX", ""] {
        assert_eq!(to_kebab_case(name), to_snake_case(name).replace('_', "-"));
    }
}

#[test]
fn camel_and_pascal_differ_only_in_first_character() {
    for name in ["my_field", "_x_y", "Field", "a-b-c"] {
        let c: Vec<char> = to_camel_case(name).chars().collect();
        let p: Vec<char> = to_pascal_case(name).chars().collect();
        assert_eq!(c.len(), p.len());
        assert_eq!(c[1..], p[1..]);
        assert!(!c.contains(&'_') && !c.contains(&'-'));
    }
}

#[test]
fn screaming_snake_uses_unicode_upper_case() {
    assert_eq!(to_screaming_snake_case("straße"), "STRASSE");
}

#[test]
fn naming_strategy_applies_each_form() {
    assert_eq!(NamingStrategy::Identity.apply("my_field"), "my_field");
    assert_eq!(NamingStrategy::CamelCase.apply("my_field"), "myField");
    assert_eq!(NamingStrategy::PascalCase.apply("my_field"), "MyField");
    assert_eq!(NamingStrategy::SnakeCase.apply("myField"), "my_field");
    assert_eq!(NamingStrategy::KebabCase.apply("my_field"), "my-field");
    assert_eq!(NamingStrategy::ScreamingSnakeCase.apply("my_field"), "MY_FIELD");
}

#[test]
fn default_options() {
    let o = ConfigOptions::default();
    assert_eq!(o.naming_strategy, NamingStrategy::Identity);
    assert_eq!(o.field_order, FieldOrder::Declaration);
    assert!(!o.remove_orphans);
}

#[test]
fn alphabetical_orders_by_code_point() {
    let order = FieldOrder::Alphabetical;
    assert_eq!(order.compare("Zebra", "apple"), Ordering::Less);
    assert_eq!(order.compare("app", "apple"), Ordering::Less);
    assert_eq!(order.compare("", ""), Ordering::Equal);
    assert_eq!(order.compare("é", "z"), "é".cmp("z"));
}

#[test]
fn snake_of_camel_gives_the_name_back() {
    for name in ["my_field", "a", "my_long_field_name", "x1_y2z", "abc"] {
        assert_eq!(to_snake_case(&to_camel_case(name)), name);
    }
}
