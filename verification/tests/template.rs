use launchpi::template::{has_reference, interpolate, references, VariableRef};

fn resolving<'a>(pairs: &'a [(&'a str, &'a str)]) -> impl Fn(&VariableRef) -> Option<String> + 'a {
    move |reference| {
        pairs.iter().find_map(|(key, value)| {
            (*key == format!("{}:{}", reference.integration_id.0, reference.name))
                .then(|| (*value).to_string())
        })
    }
}

#[test]
fn a_reference_is_replaced_by_its_value() {
    let rendered = interpolate(
        "now: $(mpris.default:title)",
        resolving(&[("mpris.default:title", "Blue Monday")]),
    );
    assert_eq!(rendered, "now: Blue Monday");
}

#[test]
fn adjacent_references_both_resolve() {
    let rendered = interpolate(
        "$(a.b:one)$(a.b:two)",
        resolving(&[("a.b:one", "1"), ("a.b:two", "2")]),
    );
    assert_eq!(rendered, "12");
}

#[test]
fn an_unknown_variable_renders_as_nothing() {
    let rendered = interpolate("[$(a.b:missing)]", resolving(&[]));
    assert_eq!(rendered, "[]");
}

#[test]
fn a_doubled_dollar_is_a_literal_dollar() {
    let rendered = interpolate("$$5.00", resolving(&[]));
    assert_eq!(rendered, "$5.00");
}

#[test]
fn malformed_references_are_left_as_written() {
    for template in ["$(unterminated", "$(no-colon)", "$(:empty)", "100$", "$ ("] {
        assert_eq!(interpolate(template, resolving(&[])), template);
    }
}

#[test]
fn a_malformed_reference_does_not_swallow_a_valid_one_after_it() {
    let rendered = interpolate("$(broken $(a.b:one)", resolving(&[("a.b:one", "resolved")]));
    assert_eq!(rendered, "$(broken resolved");
}

#[test]
fn references_lists_only_well_formed_bindings() {
    let found = references("$(a.b:one) $(broken $(c.d:two)");
    assert_eq!(
        found,
        vec![VariableRef::new("a.b", "one"), VariableRef::new("c.d", "two")]
    );
}

#[test]
fn a_written_reference_reads_back_as_itself() {
    let reference = VariableRef::new("hass.home", "light.kitchen.color");
    let written = reference.to_template();
    assert_eq!(written, "$(hass.home:light.kitchen.color)");
    assert_eq!(references(&written), vec![reference]);
    assert!(has_reference(&written));
    assert!(!has_reference("plain text"));
    assert_eq!(VariableRef::user("count"), VariableRef::new("user", "count"));
}
