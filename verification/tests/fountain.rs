use terminal_toys::toys::fountain::{cycle_theme, theme_by_name, Rgb};

#[test]
fn themes_are_found_by_name() {
    let t = theme_by_name("ice");
    assert_eq!(t.name, "ice");
    assert_eq!(t.fg, Rgb { r: 170, g: 220, b: 255 });
    assert_eq!(theme_by_name("amber").glow, Rgb { r: 255, g: 150, b: 70 });
    assert_eq!(theme_by_name("purple").stone, Rgb { r: 70, g: 55, b: 90 });
    assert_eq!(theme_by_name("mono").water, Rgb { r: 70, g: 70, b: 80 });
    // any other name, the default look
    let d = theme_by_name("Amber");
    assert_eq!((d.name, d.bg), ("mint", Rgb { r: 5, g: 7, b: 10 }));
    assert_eq!(theme_by_name("").name, "mint");
}

#[test]
fn themes_cycle_in_order() {
    let mut t = theme_by_name("mint");
    let mut seen = Vec::new();
    for _ in 0..6 {
        t = cycle_theme(t);
        seen.push(t.name);
    }
    assert_eq!(seen, vec!["amber", "ice", "purple", "mono", "mint", "amber"]);
    let mut odd = theme_by_name("mono");
    odd.name = "sepia";
    assert_eq!(cycle_theme(odd).name, "amber");
}
