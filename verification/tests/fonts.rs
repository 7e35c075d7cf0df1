use ffgl_sources::fonts::{font_family_at, font_family_list, font_family_or_default};

fn strings(v: &[&str]) -> Vec<String> {
    v.iter().map(|s| s.to_string()).collect()
}

#[test]
fn menu_sorts_ignoring_case() {
    let menu = font_family_list(strings(&["a", "B"]));
    assert_eq!(menu, strings(&["a", "B"]));
    let menu = font_family_list(strings(&["Zapfino", "arial", "Helvetica", "Courier"]));
    assert_eq!(menu, strings(&["arial", "Courier", "Helvetica", "Zapfino"]));
}

#[test]
fn menu_drops_repeated_neighbors() {
    let menu = font_family_list(strings(&["Times", "Arial", "Times", "Arial", "Times"]));
    assert_eq!(menu, strings(&["Arial", "Times"]));
}

#[test]
fn menu_is_stable_for_case_variants() {
    let menu = font_family_list(strings(&["arial", "Arial", "arial"]));
    assert_eq!(menu, strings(&["arial", "Arial"]));
    let menu = font_family_list(strings(&["Foo", "FOO", "Foo"]));
    assert_eq!(menu, strings(&["Foo", "FOO"]));
    let menu = font_family_list(strings(&["ÉCOLE", "zeta", "école"]));
    assert_eq!(menu, strings(&["zeta", "ÉCOLE", "école"]));
}

#[test]
fn menu_matches_std_sort_and_dedup() {
    let input = strings(&["b", "B", "a", "c", "A", "b", "b", "Menlo", "menlo", "Monaco", "Ärial", "ärial", "Zeta", "émoji", "Émoji"]);
    let mut expected = input.clone();
    expected.sort_by(|a, b| a.to_lowercase().cmp(&b.to_lowercase()));
    let mut once: Vec<String> = Vec::new();
    for name in expected {
        if !once.contains(&name) {
            once.push(name);
        }
    }
    let menu = font_family_list(input);
    assert_eq!(menu, once);
    for i in 0..menu.len() {
        for j in i + 1..menu.len() {
            assert_ne!(menu[i], menu[j]);
        }
    }
}

#[test]
fn empty_menu() {
    assert!(font_family_list(Vec::new()).is_empty());
}

#[test]
fn family_at_clamps_to_last() {
    let menu = strings(&["Arial", "Courier", "Times"]);
    assert_eq!(font_family_at(&menu, 0), "Arial");
    assert_eq!(font_family_at(&menu, 2), "Times");
    assert_eq!(font_family_at(&menu, 3), "Times");
    assert_eq!(font_family_at(&menu, usize::MAX), "Times");
}

#[test]
fn family_falls_back_to_helvetica_without_fonts() {
    assert_eq!(font_family_or_default(&Vec::new(), 0), "Helvetica");
    assert_eq!(font_family_or_default(&Vec::new(), 7), "Helvetica");
    let menu = strings(&["Arial", "Times"]);
    assert_eq!(font_family_or_default(&menu, 1), "Times");
    assert_eq!(font_family_or_default(&menu, 9), "Times");
}
