use ox_content::allocator::Allocator;
use ox_content::parser::Parser;
use ox_content::toc::{extract_toc, slugify};

#[test]
fn slugs() {
    assert_eq!(slugify("Hello World!"), "hello-world");
    assert_eq!(slugify("  A  b "), "a-b");
    assert_eq!(slugify("Über-Größe"), "über-größe");
    assert_eq!(slugify("x_y.z"), "x-y-z");
    assert_eq!(slugify(""), "");
}

#[test]
fn toc_of_document() {
    let allocator = Allocator::new();
    let doc = Parser::new(&allocator, "# Intro\n\ntext\n\n## Set *up* `now`\n\n#### Deep\n\n### [Link](x)")
        .parse()
        .unwrap();
    let toc = extract_toc(&doc, 3);
    assert_eq!(toc.len(), 3);
    assert_eq!((toc[0].depth, toc[0].text.as_str(), toc[0].slug.as_str()), (1, "Intro", "intro"));
    assert_eq!((toc[1].depth, toc[1].text.as_str(), toc[1].slug.as_str()), (2, "Set up now", "set-up-now"));
    assert_eq!((toc[2].depth, toc[2].text.as_str()), (3, "Link"));
}
