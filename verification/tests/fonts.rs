use gridterm::fonts::{
    expand_user_path, font_candidates, font_name_candidates, fontconfig_answer, fontconfig_query,
    looks_like_font_path,
};

const FALLBACKS: [&str; 7] = [
    "/usr/share/fonts/truetype/ubuntu/UbuntuSansMono[wght].ttf",
    "/usr/share/fonts/truetype/ubuntu/UbuntuMono-R.ttf",
    "/usr/share/fonts/truetype/noto/NotoSansMono-Regular.ttf",
    "/usr/share/fonts/truetype/dejavu/DejaVuSansMono.ttf",
    "/usr/share/fonts/truetype/liberation/LiberationMono-Regular.ttf",
    "/usr/share/fonts/truetype/liberation2/LiberationMono-Regular.ttf",
    "/usr/share/fonts/opentype/urw-base35/NimbusMonoPS-Regular.otf",
];

#[test]
fn font_paths_are_recognised() {
    assert!(looks_like_font_path("Mono.TTF"));
    assert!(looks_like_font_path(" x.otf "));
    assert!(looks_like_font_path("a.ttc"));
    assert!(looks_like_font_path("/usr/x"));
    assert!(looks_like_font_path("./x"));
    assert!(looks_like_font_path("../x"));
    assert!(looks_like_font_path("~/x"));
    assert!(!looks_like_font_path("Ubuntu Mono"));
    assert!(!looks_like_font_path("~x"));
    assert!(!looks_like_font_path(""));
}

#[test]
fn known_family_names() {
    assert_eq!(font_name_candidates("Ubuntu Sans Mono"), vec![FALLBACKS[0].to_string()]);
    assert_eq!(font_name_candidates("my UBUNTU MONO"), vec![FALLBACKS[1].to_string()]);
    assert_eq!(font_name_candidates("Noto Sans Mono"), vec![FALLBACKS[2].to_string()]);
    assert_eq!(font_name_candidates("DejaVu"), vec![FALLBACKS[3].to_string()]);
    assert!(font_name_candidates("Fira Code").is_empty());
}

#[test]
fn home_is_expanded() {
    assert_eq!(expand_user_path(" ~/f.ttf ", Some("/home/u")), "/home/u/f.ttf");
    assert_eq!(expand_user_path("~/f.ttf", Some("/home/u/")), "/home/u/f.ttf");
    assert_eq!(expand_user_path("~/f.ttf", None), "~/f.ttf");
    assert_eq!(expand_user_path("~//abs.ttf", Some("/home/u")), "/abs.ttf");
    assert_eq!(expand_user_path("/x/f.ttf", Some("/home/u")), "/x/f.ttf");
    assert_eq!(expand_user_path("~/f.ttf", Some("")), "f.ttf");
}

#[test]
fn fontconfig_is_asked_for_family_names() {
    assert_eq!(fontconfig_query(Some("  JetBrains Mono ")), Some("JetBrains Mono"));
    assert_eq!(fontconfig_query(Some("/x.ttf")), None);
    assert_eq!(fontconfig_query(Some("   ")), None);
    assert_eq!(fontconfig_query(None), None);
}

#[test]
fn fontconfig_answer_is_first_line() {
    assert_eq!(fontconfig_answer(" /a/b.ttf \n/c.ttf\n"), Some("/a/b.ttf"));
    assert_eq!(fontconfig_answer("/a.ttf"), Some("/a.ttf"));
    assert_eq!(fontconfig_answer("\n/a.ttf"), None);
    assert_eq!(fontconfig_answer(""), None);
}

#[test]
fn candidates_without_setting_are_fallbacks() {
    let expected: Vec<String> = FALLBACKS.iter().map(|s| s.to_string()).collect();
    assert_eq!(font_candidates(None, None, None), expected);
    assert_eq!(font_candidates(Some("  "), None, None), expected);
}

#[test]
fn candidates_of_a_path_setting() {
    let got = font_candidates(Some("~/fonts/a.ttf"), Some("/ignored.ttf".to_string()), Some("/h"));
    assert_eq!(got[0], "/h/fonts/a.ttf");
    assert_eq!(got.len(), 8);
}

#[test]
fn candidates_of_a_family_are_distinct() {
    let got = font_candidates(
        Some("Ubuntu Mono"),
        Some(FALLBACKS[3].to_string()),
        None,
    );
    let mut expected = vec![FALLBACKS[3].to_string(), FALLBACKS[1].to_string()];
    expected.push(FALLBACKS[0].to_string());
    expected.push(FALLBACKS[2].to_string());
    expected.push(FALLBACKS[4].to_string());
    expected.push(FALLBACKS[5].to_string());
    expected.push(FALLBACKS[6].to_string());
    assert_eq!(got, expected);
}

#[test]
fn candidates_with_the_same_components_are_tried_once() {
    let got = font_candidates(
        Some("/usr/share/fonts/truetype/dejavu//DejaVuSansMono.ttf/"),
        None,
        None,
    );
    assert_eq!(got.len(), 7);
    assert_eq!(got[0], "/usr/share/fonts/truetype/dejavu//DejaVuSansMono.ttf/");
    assert!(!got.iter().any(|p| p == FALLBACKS[3]));
    let dotted = font_candidates(Some("/usr/share/fonts/./truetype/ubuntu/UbuntuMono-R.ttf"), None, None);
    assert_eq!(dotted.len(), 7);
    let relative = font_candidates(Some("./a.ttf"), Some("x".to_string()), None);
    assert_eq!(relative[0], "./a.ttf");
    assert_eq!(relative.len(), 8);
}
