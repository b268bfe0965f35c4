use cch_rooms::bake::BakeInput;

fn lines(items: &[(&str, u64)]) -> Vec<(String, u64)> {
    items.iter().map(|(k, v)| (k.to_string(), *v)).collect()
}

fn stock(out: &[(String, u64)], name: &str) -> u64 {
    out.iter().find(|(k, _)| k == name).map(|(_, v)| *v).unwrap()
}

#[test]
fn bakes_as_many_as_the_scarcest_ingredient_allows() {
    let input = BakeInput::new(
        lines(&[("flour", 95), ("sugar", 50), ("butter", 30), ("baking powder", 10), ("chocolate chips", 50)]),
        lines(&[("flour", 385), ("sugar", 507), ("butter", 2122), ("baking powder", 865), ("chocolate chips", 457)]),
    )
    .unwrap();
    let out = input.bake();
    assert_eq!(out.cookies, 4);
    assert_eq!(stock(&out.pantry, "flour"), 5);
    assert_eq!(stock(&out.pantry, "sugar"), 307);
    assert_eq!(stock(&out.pantry, "butter"), 2002);
    assert_eq!(stock(&out.pantry, "baking powder"), 825);
    assert_eq!(stock(&out.pantry, "chocolate chips"), 257);
}

#[test]
fn missing_ingredient_bakes_nothing() {
    let input = BakeInput::new(lines(&[("flour", 1), ("egg", 1)]), lines(&[("flour", 10)])).unwrap();
    let out = input.bake();
    assert_eq!(out.cookies, 0);
    assert_eq!(out.pantry, lines(&[("flour", 10)]));
}

#[test]
fn zero_amount_does_not_limit() {
    let input = BakeInput::new(
        lines(&[("flour", 2), ("salt", 0)]),
        lines(&[("flour", 9), ("salt", 1), ("milk", 4)]),
    )
    .unwrap();
    let out = input.bake();
    assert_eq!(out.cookies, 4);
    assert_eq!(out.pantry, lines(&[("flour", 1), ("salt", 1), ("milk", 4)]));
}

#[test]
fn empty_recipe_bakes_nothing() {
    let input = BakeInput::new(Vec::new(), lines(&[("flour", 9)])).unwrap();
    assert_eq!(input.bake().cookies, 0);
}

#[test]
fn only_zero_amounts_allow_any_number() {
    let input = BakeInput::new(lines(&[("air", 0)]), lines(&[("air", 3)])).unwrap();
    let out = input.bake();
    assert_eq!(out.cookies, u64::MAX);
    assert_eq!(out.pantry, lines(&[("air", 3)]));
}

#[test]
fn repeated_names_are_refused() {
    assert!(BakeInput::new(lines(&[("flour", 1), ("flour", 2)]), Vec::new()).is_none());
    assert!(BakeInput::new(Vec::new(), lines(&[("egg", 1), ("egg", 1)])).is_none());
}

#[test]
fn adjust_pantry_adds_missing_ingredients_at_zero() {
    let mut input = BakeInput::new(
        lines(&[("flour", 1), ("egg", 2), ("milk", 1)]),
        lines(&[("flour", 10), ("sugar", 3)]),
    )
    .unwrap();
    input.adjust_pantry();
    assert_eq!(input.pantry_lines(), &lines(&[("flour", 10), ("sugar", 3), ("egg", 0), ("milk", 0)]));
    assert_eq!(input.bake().cookies, 0);
}

#[test]
fn recipe_cookie_is_decoded() {
    let bytes = cch_rooms::bake::decode_recipe_cookie("eyJmbG91ciI6MTAwfQ==").unwrap();
    assert_eq!(bytes, b"{\"flour\":100}".to_vec());
}

#[test]
fn recipe_cookie_that_is_not_base64_is_refused() {
    assert_eq!(
        cch_rooms::bake::decode_recipe_cookie("not base64!"),
        Err(cch_rooms::bake::CookieError::NotBase64)
    );
}
