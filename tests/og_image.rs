use ox_content::og_image::{
    escape_xml_text, truncate_text, wrap_text, OgImageConfig, OgImageData, OgImageGenerator,
    OgImageTemplate, TemplateLayout,
};

#[test]
fn test_generate_svg() {
    let generator = OgImageGenerator::default();
    let data = OgImageData {
        title: "Test Title".to_string(),
        description: Some("Test description".to_string()),
        site_name: None,
        author: None,
        date: None,
        tags: vec![],
    };

    let svg = generator.generate_svg(&data);
    assert!(svg.contains("Test Title"));
    assert!(svg.contains("Test description"));
}

#[test]
fn svg_escapes_and_sizes() {
    let mut cfg = OgImageConfig::new();
    cfg.width = 800;
    let generator = OgImageGenerator::with_template(cfg, OgImageTemplate::centered("c"));
    assert_eq!(generator.template().layout, TemplateLayout::Centered);
    let data = OgImageData {
        title: "A <b> & \"c\"".to_string(),
        description: None,
        site_name: Some("Site's".to_string()),
        author: None,
        date: None,
        tags: vec![],
    };
    let svg = generator.generate_svg(&data);
    assert!(svg.starts_with("<svg xmlns=\"http://www.w3.org/2000/svg\" width=\"800\" height=\"630\""));
    assert!(svg.contains("A &lt;b&gt; &amp; &quot;c&quot;"));
    assert!(svg.contains("Site&#39;s"));
    assert!(generator.generate(&data).is_err());
}

#[test]
fn text_helpers() {
    assert_eq!(escape_xml_text("<&>"), "&lt;&amp;&gt;");
    assert_eq!(truncate_text("abcdef", 6), "abcdef");
    assert_eq!(truncate_text("abcdefg", 6), "abc...");
    assert_eq!(wrap_text("aa bb cc", 5), vec!["aa bb", "cc"]);
    assert_eq!(wrap_text("aaaa bbbb cccc", 4), vec!["aaaa", "b..."]);
    assert_eq!(OgImageTemplate::split("s").layout, TemplateLayout::Split);
    assert_eq!(OgImageTemplate::new("d").name, "d");
    assert_eq!(OgImageGenerator::new(OgImageConfig::new()).config().height, 630);
}
