use ox_content::ssg::{
    generate_entry_html, generate_footer_html, generate_nav_html, generate_theme_css, html_escape,
    render_icon, EntryPageConfig, FeatureConfig, HeroAction, HeroConfig, HeroImage, NavGroup,
    NavItem, ThemeColors, ThemeConfig, ThemeFooter, ThemeLayout,
};

#[test]
fn test_html_escape() {
    assert_eq!(html_escape("<script>"), "&lt;script&gt;");
    assert_eq!(html_escape("a & b"), "a &amp; b");
    assert_eq!(html_escape("\"quoted\""), "&quot;quoted&quot;");
}

#[test]
fn test_generate_theme_css() {
    let theme = ThemeConfig {
        colors: Some(ThemeColors {
            primary: Some("#ff0000".to_string()),
            background: Some("#ffffff".to_string()),
            ..Default::default()
        }),
        dark_colors: Some(ThemeColors { primary: Some("#ff6666".to_string()), ..Default::default() }),
        layout: Some(ThemeLayout { sidebar_width: Some("300px".to_string()), ..Default::default() }),
        ..Default::default()
    };

    let css = generate_theme_css(&theme);

    assert!(css.contains("--octc-color-primary: #ff0000;"));
    assert!(css.contains("--octc-color-bg: #ffffff;"));
    assert!(css.contains("[data-theme=\"dark\"]"));
    assert!(css.contains("--octc-sidebar-width: 300px;"));
}

#[test]
fn test_generate_footer_html() {
    let theme = ThemeConfig {
        footer: Some(ThemeFooter {
            message: Some("Footer message".to_string()),
            copyright: Some("Copyright info".to_string()),
        }),
        ..Default::default()
    };

    let html = generate_footer_html(&theme);

    assert!(html.contains("site-footer"));
    assert!(html.contains("Footer message"));
    assert!(html.contains("Copyright info"));
}

#[test]
fn theme_css_exact_and_empty() {
    assert_eq!(generate_theme_css(&ThemeConfig::default()), "");
    let theme = ThemeConfig {
        colors: Some(ThemeColors { primary: Some("red".to_string()), text: Some("black".to_string()), ..Default::default() }),
        css: Some("body{}".to_string()),
        ..Default::default()
    };
    assert_eq!(
        generate_theme_css(&theme),
        ":root {\n  --octc-color-primary: red;\n  --octc-color-text: black;\n}\nbody{}"
    );
    let empty_footer = ThemeConfig { footer: Some(ThemeFooter::default()), ..Default::default() };
    assert_eq!(generate_footer_html(&empty_footer), "");
}

#[test]
fn nav_marks_active_link() {
    let groups = vec![NavGroup {
        title: "Guide & more".to_string(),
        items: vec![
            NavItem { title: "A".to_string(), path: "a".to_string(), href: "/a".to_string() },
            NavItem { title: "<B>".to_string(), path: "b".to_string(), href: "/b".to_string() },
        ],
    }];
    let html = generate_nav_html(&groups, "b");
    assert!(html.contains("<div class=\"nav-title\">Guide &amp; more</div>"));
    assert!(html.contains("<a href=\"/a\" class=\"nav-link\">A</a>"));
    assert!(html.contains("<a href=\"/b\" class=\"nav-link active\">&lt;B&gt;</a>"));
    assert_eq!(generate_nav_html(&Vec::new(), "x"), "");
}

#[test]
fn icons_and_entry_page() {
    assert_eq!(
        render_icon("mdi:home", "/b/"),
        "<span class=\"iconify-icon\" style=\"-webkit-mask-image: url('https://api.iconify.design/mdi/home.svg'); mask-image: url('https://api.iconify.design/mdi/home.svg')\"></span>"
    );
    assert_eq!(render_icon("https://x/i.png", "/b/"), "<img src=\"https://x/i.png\" alt=\"\" />");
    assert_eq!(render_icon("img/a.svg", "/b/"), "<img src=\"/b/img/a.svg\" alt=\"\" />");
    assert_eq!(render_icon("🚀", "/b/"), "🚀");
    assert_eq!(generate_entry_html(&EntryPageConfig::default(), "/"), "");
    let entry = EntryPageConfig {
        hero: Some(HeroConfig {
            name: Some("Ox & Co".to_string()),
            text: None,
            tagline: Some("Fast".to_string()),
            image: Some(HeroImage { src: "logo.svg".to_string(), alt: Some("Logo".to_string()), width: Some(64), height: None }),
            actions: Some(vec![HeroAction { theme: Some("alt".to_string()), text: "Start".to_string(), link: "guide/".to_string() }]),
        }),
        features: Some(vec![FeatureConfig {
            icon: None,
            title: "Speed".to_string(),
            details: Some("<fast>".to_string()),
            link: Some("/perf".to_string()),
            link_text: None,
        }]),
    };
    let html = generate_entry_html(&entry, "/docs/");
    assert!(html.contains("<h1 class=\"hero-name\">Ox &amp; Co</h1>"));
    assert!(html.contains("<img src=\"/docs/logo.svg\" alt=\"Logo\" width=\"64\" />"));
    assert!(html.contains("<a href=\"/docs/guide/\" class=\"hero-action hero-action-alt\">Start</a>"));
    assert!(html.contains("<a class=\"feature-card\" href=\"/perf\">"));
    assert!(html.contains("<p class=\"feature-details\">&lt;fast&gt;</p>"));
    assert!(html.contains("<span class=\"feature-link\"></span>"));
}

#[test]
fn social_links() {
    use_social_links();
}

fn use_social_links() {
    let none = ox_content::ssg::SocialLinks::default();
    assert_eq!(ox_content::ssg::generate_social_links_html(&none), "");
    assert_eq!(ox_content::ssg::generate_mobile_social_links_html(&none), "");
    let links = ox_content::ssg::SocialLinks {
        github: Some("https://github.com/x".to_string()),
        twitter: None,
        discord: Some("https://discord.gg/y".to_string()),
    };
    let html = ox_content::ssg::generate_social_links_html(&links);
    assert!(html.starts_with("      <a href=\"https://github.com/x\" class=\"social-link\" aria-label=\"GitHub\""));
    assert!(html.contains("aria-label=\"Discord\""));
    assert!(!html.contains("Twitter"));
    let mobile = ox_content::ssg::generate_mobile_social_links_html(&links);
    assert!(mobile.contains("<span class=\"mobile-footer-label\">GitHub</span>"));
}
