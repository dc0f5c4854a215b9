//! Pieces of the static site pages: theme CSS, footer, navigation.
use vstd::prelude::*;
use vstd::string::StringExecFns;

use crate::text::{chars_of, owned, push_char, str_eq};

verus! {

/// Colour overrides.
#[derive(Debug, Clone, Default)]
pub struct ThemeColors {
    pub primary: Option<String>,
    pub primary_hover: Option<String>,
    pub background: Option<String>,
    pub background_alt: Option<String>,
    pub text: Option<String>,
    pub text_muted: Option<String>,
    pub border: Option<String>,
    pub code_background: Option<String>,
    pub code_text: Option<String>,
}

/// Layout size overrides.
#[derive(Debug, Clone, Default)]
pub struct ThemeLayout {
    pub sidebar_width: Option<String>,
    pub header_height: Option<String>,
    pub max_content_width: Option<String>,
}

/// Font family overrides.
#[derive(Debug, Clone, Default)]
pub struct ThemeFonts {
    pub sans: Option<String>,
    pub mono: Option<String>,
}

/// Header logo.
#[derive(Debug, Clone, Default)]
pub struct ThemeHeader {
    pub logo: Option<String>,
    pub logo_width: Option<u32>,
    pub logo_height: Option<u32>,
}

/// Footer texts.
#[derive(Debug, Clone, Default)]
pub struct ThemeFooter {
    pub message: Option<String>,
    pub copyright: Option<String>,
}

/// Social network links.
#[derive(Debug, Clone, Default)]
pub struct SocialLinks {
    pub github: Option<String>,
    pub twitter: Option<String>,
    pub discord: Option<String>,
}

/// HTML inserted at fixed places of a page.
#[derive(Debug, Clone, Default)]
pub struct ThemeEmbed {
    pub head: Option<String>,
    pub header_before: Option<String>,
    pub header_after: Option<String>,
    pub sidebar_before: Option<String>,
    pub sidebar_after: Option<String>,
    pub content_before: Option<String>,
    pub content_after: Option<String>,
    pub footer_before: Option<String>,
    pub footer: Option<String>,
}

/// The theme of a site.
#[derive(Debug, Clone, Default)]
pub struct ThemeConfig {
    pub colors: Option<ThemeColors>,
    pub dark_colors: Option<ThemeColors>,
    pub fonts: Option<ThemeFonts>,
    pub layout: Option<ThemeLayout>,
    pub header: Option<ThemeHeader>,
    pub footer: Option<ThemeFooter>,
    pub social_links: Option<SocialLinks>,
    pub embed: Option<ThemeEmbed>,
    pub css: Option<String>,
    pub js: Option<String>,
}

/// A button of the hero section.
#[derive(Debug, Clone, Default)]
pub struct HeroAction {
    pub theme: Option<String>,
    pub text: String,
    pub link: String,
}

/// The image of the hero section.
#[derive(Debug, Clone, Default)]
pub struct HeroImage {
    pub src: String,
    pub alt: Option<String>,
    pub width: Option<u32>,
    pub height: Option<u32>,
}

/// The hero section of an entry page.
#[derive(Debug, Clone, Default)]
pub struct HeroConfig {
    pub name: Option<String>,
    pub text: Option<String>,
    pub tagline: Option<String>,
    pub image: Option<HeroImage>,
    pub actions: Option<Vec<HeroAction>>,
}

/// A feature card of an entry page.
#[derive(Debug, Clone, Default)]
pub struct FeatureConfig {
    pub icon: Option<String>,
    pub title: String,
    pub details: Option<String>,
    pub link: Option<String>,
    pub link_text: Option<String>,
}

/// An entry page: hero and features.
#[derive(Debug, Clone, Default)]
pub struct EntryPageConfig {
    pub hero: Option<HeroConfig>,
    pub features: Option<Vec<FeatureConfig>>,
}

/// A link of the navigation.
#[derive(Debug, Clone)]
pub struct NavItem {
    pub title: String,
    pub path: String,
    pub href: String,
}

/// A titled group of navigation links.
#[derive(Debug, Clone)]
pub struct NavGroup {
    pub title: String,
    pub items: Vec<NavItem>,
}

/// Site-wide settings.
#[derive(Debug, Clone)]
pub struct SsgConfig {
    pub site_name: String,
    pub base: String,
    pub og_image: Option<String>,
    pub theme: Option<ThemeConfig>,
}

/// Escaping for HTML text: `&`, `<`, `>` and `"` become entities.
pub open spec fn escaped(s: Seq<char>) -> Seq<char>
    decreases s.len(),
{
    if s.len() == 0 {
        Seq::empty()
    } else {
        escaped(s.drop_last()) + if s.last() == '&' {
            seq!['&', 'a', 'm', 'p', ';']
        } else if s.last() == '<' {
            seq!['&', 'l', 't', ';']
        } else if s.last() == '>' {
            seq!['&', 'g', 't', ';']
        } else if s.last() == '"' {
            seq!['&', 'q', 'u', 'o', 't', ';']
        } else {
            seq![s.last()]
        }
    }
}

/// `s` escaped for HTML text.
pub fn html_escape(s: &str) -> (r: String)
    ensures
        r@ == escaped(s@),
{
    let cs = chars_of(s);
    let mut out = String::new();
    let mut i: usize = 0;
    while i < cs.len()
        invariant
            i <= cs@.len(),
            cs@ == s@,
            out@ == escaped(cs@.subrange(0, i as int)),
        decreases cs@.len() - i,
    {
        let c = cs[i];
        let ghost before = out@;
        proof {
            assert(cs@.subrange(0, i + 1).drop_last() =~= cs@.subrange(0, i as int));
        }
        if c == '&' {
            push_char(&mut out, '&');
            push_char(&mut out, 'a');
            push_char(&mut out, 'm');
            push_char(&mut out, 'p');
            push_char(&mut out, ';');
        } else if c == '<' {
            push_char(&mut out, '&');
            push_char(&mut out, 'l');
            push_char(&mut out, 't');
            push_char(&mut out, ';');
        } else if c == '>' {
            push_char(&mut out, '&');
            push_char(&mut out, 'g');
            push_char(&mut out, 't');
            push_char(&mut out, ';');
        } else if c == '"' {
            push_char(&mut out, '&');
            push_char(&mut out, 'q');
            push_char(&mut out, 'u');
            push_char(&mut out, 'o');
            push_char(&mut out, 't');
            push_char(&mut out, ';');
        } else {
            push_char(&mut out, c);
        }
        i = i + 1;
        proof {
            assert(out@ =~= escaped(cs@.subrange(0, i as int)));
        }
    }
    proof {
        assert(cs@.subrange(0, cs@.len() as int) =~= cs@);
    }
    out
}

/// Adds `name: value;` when the value is set.
fn push_var(vars: &mut Vec<String>, name: &str, value: &Option<String>)
    ensures
        final(vars)@.len() == old(vars)@.len() + if value is Some {
            1int
        } else {
            0int
        },
{
    match value {
        Some(v) => {
            let mut s = owned(name);
            s.append(": ");
            s.append(v.as_str());
            s.append(";");
            vars.push(s);
        },
        None => {},
    }
}

/// The variables joined with `sep`.
fn join(vars: &Vec<String>, sep: &str) -> (r: String) {
    let mut out = String::new();
    let mut i: usize = 0;
    while i < vars.len()
        invariant
            i <= vars@.len(),
        decreases vars@.len() - i,
    {
        if i > 0 {
            out.append(sep);
        }
        out.append(vars[i].as_str());
        i = i + 1;
    }
    out
}

fn color_vars(colors: &ThemeColors) -> (r: Vec<String>) {
    let mut vars: Vec<String> = Vec::new();
    push_var(&mut vars, "--octc-color-primary", &colors.primary);
    push_var(&mut vars, "--octc-color-primary-hover", &colors.primary_hover);
    push_var(&mut vars, "--octc-color-bg", &colors.background);
    push_var(&mut vars, "--octc-color-bg-alt", &colors.background_alt);
    push_var(&mut vars, "--octc-color-text", &colors.text);
    push_var(&mut vars, "--octc-color-text-muted", &colors.text_muted);
    push_var(&mut vars, "--octc-color-border", &colors.border);
    push_var(&mut vars, "--octc-color-code-bg", &colors.code_background);
    push_var(&mut vars, "--octc-color-code-text", &colors.code_text);
    vars
}

fn push_root_block(css: &mut String, vars: &Vec<String>) {
    if vars.len() > 0 {
        css.append(":root {\n  ");
        css.append(join(vars, "\n  ").as_str());
        css.append("\n}\n");
    }
}

/// CSS custom properties for the theme's colours (light, then dark, the
/// dark ones also under `prefers-color-scheme`), layout and fonts, then
/// the theme's own CSS. A theme that sets nothing gives nothing.
pub fn generate_theme_css(theme: &ThemeConfig) -> (r: String)
    ensures
        theme.colors is None && theme.dark_colors is None && theme.layout is None && theme.fonts
            is None && theme.css is None ==> r@.len() == 0,
{
    let mut css = String::new();
    match &theme.colors {
        Some(colors) => {
            let vars = color_vars(colors);
            push_root_block(&mut css, &vars);
        },
        None => {},
    }
    match &theme.dark_colors {
        Some(colors) => {
            let vars = color_vars(colors);
            if vars.len() > 0 {
                css.append("[data-theme=\"dark\"] {\n  ");
                css.append(join(&vars, "\n  ").as_str());
                css.append("\n}\n");
                css.append(
                    "@media (prefers-color-scheme: dark) {\n  :root:not([data-theme=\"light\"]) {\n    ",
                );
                css.append(join(&vars, "\n    ").as_str());
                css.append("\n  }\n}\n");
            }
        },
        None => {},
    }
    match &theme.layout {
        Some(layout) => {
            let mut vars: Vec<String> = Vec::new();
            push_var(&mut vars, "--octc-sidebar-width", &layout.sidebar_width);
            push_var(&mut vars, "--octc-header-height", &layout.header_height);
            push_var(&mut vars, "--octc-max-content-width", &layout.max_content_width);
            push_root_block(&mut css, &vars);
        },
        None => {},
    }
    match &theme.fonts {
        Some(fonts) => {
            let mut vars: Vec<String> = Vec::new();
            push_var(&mut vars, "--octc-font-sans", &fonts.sans);
            push_var(&mut vars, "--octc-font-mono", &fonts.mono);
            push_root_block(&mut css, &vars);
        },
        None => {},
    }
    match &theme.css {
        Some(custom) => {
            css.append(custom.as_str());
        },
        None => {},
    }
    css
}

/// The footer: its message and copyright lines, or nothing when the theme
/// sets neither.
pub fn generate_footer_html(theme: &ThemeConfig) -> (r: String)
    ensures
        (match theme.footer {
            Some(f) => f.message is None && f.copyright is None,
            None => true,
        }) ==> r@.len() == 0,
{
    let footer = match &theme.footer {
        Some(f) => {
            if f.message.is_none() && f.copyright.is_none() {
                return String::new();
            }
            f
        },
        None => {
            return String::new();
        },
    };
    let mut html = owned("<footer class=\"site-footer\">\n");
    match &footer.message {
        Some(m) => {
            html.append("  <p class=\"footer-message\">");
            html.append(m.as_str());
            html.append("</p>\n");
        },
        None => {},
    }
    match &footer.copyright {
        Some(c) => {
            html.append("  <p class=\"footer-copyright\">");
            html.append(c.as_str());
            html.append("</p>\n");
        },
        None => {},
    }
    html.append("</footer>");
    html
}

/// The sidebar: one section per group, its links escaped, the link to
/// `current_path` marked active.
pub fn generate_nav_html(nav_groups: &Vec<NavGroup>, current_path: &str) -> (r: String)
    ensures
        nav_groups@.len() == 0 ==> r@.len() == 0,
{
    let mut out = String::new();
    let mut g: usize = 0;
    while g < nav_groups.len()
        invariant
            g <= nav_groups@.len(),
            g == 0 ==> out@.len() == 0,
        decreases nav_groups@.len() - g,
    {
        let group = &nav_groups[g];
        if g > 0 {
            out.append("\n");
        }
        out.append("          <div class=\"nav-section\">\n            <div class=\"nav-title\">");
        out.append(html_escape(group.title.as_str()).as_str());
        out.append("</div>\n            <ul class=\"nav-list\">\n");
        let mut i: usize = 0;
        while i < group.items.len()
            invariant
                i <= group.items@.len(),
            decreases group.items@.len() - i,
        {
            let item = &group.items[i];
            if i > 0 {
                out.append("\n");
            }
            out.append("              <li class=\"nav-item\"><a href=\"");
            out.append(item.href.as_str());
            out.append("\" class=\"nav-link");
            if str_eq(item.path.as_str(), current_path) {
                out.append(" active");
            }
            out.append("\">");
            out.append(html_escape(item.title.as_str()).as_str());
            out.append("</a></li>");
            i = i + 1;
        }
        out.append("\n            </ul>\n          </div>");
        g = g + 1;
    }
    out
}

/// Whether `s` starts with `prefix`.
fn has_prefix(s: &str, prefix: &str) -> (r: bool)
    ensures
        r == (prefix@.len() <= s@.len() && s@.subrange(0, prefix@.len() as int) == prefix@),
{
    let a = chars_of(s);
    let b = chars_of(prefix);
    if b.len() > a.len() {
        return false;
    }
    let mut k: usize = 0;
    while k < b.len()
        invariant
            k <= b@.len(),
            b@.len() <= a@.len(),
            a@ == s@,
            b@ == prefix@,
            forall|j: int| 0 <= j < k ==> a@[j] == b@[j],
        decreases b@.len() - k,
    {
        if a[k] != b[k] {
            proof {
                assert(a@.subrange(0, b@.len() as int)[k as int] != b@[k as int]);
            }
            return false;
        }
        k = k + 1;
    }
    proof {
        assert(a@.subrange(0, b@.len() as int) =~= b@);
    }
    true
}

/// Whether `s` ends with `suffix`.
fn has_suffix(s: &str, suffix: &str) -> (r: bool)
    ensures
        r == (suffix@.len() <= s@.len() && s@.subrange(s@.len() - suffix@.len(), s@.len() as int)
            == suffix@),
{
    let a = chars_of(s);
    let b = chars_of(suffix);
    if b.len() > a.len() {
        return false;
    }
    let n = a.len();
    let off = n - b.len();
    let mut k: usize = 0;
    while k < b.len()
        invariant
            k <= b@.len(),
            n == a@.len(),
            b@.len() <= n,
            a@ == s@,
            b@ == suffix@,
            off == a@.len() - b@.len(),
            forall|j: int| 0 <= j < k ==> a@[off + j] == b@[j],
        decreases b@.len() - k,
    {
        if a[off + k] != b[k] {
            proof {
                assert(a@.subrange(off as int, a@.len() as int)[k as int] != b@[k as int]);
            }
            return false;
        }
        k = k + 1;
    }
    proof {
        assert(a@.subrange(off as int, a@.len() as int) =~= b@);
    }
    true
}

/// A URL or an absolute path, used as it is.
fn is_absolute(link: &str) -> (r: bool) {
    has_prefix(link, "http://") || has_prefix(link, "https://") || has_prefix(link, "/")
}

/// `link`, with `base` put in front of a relative one.
fn resolve(base: &str, link: &str) -> (r: String) {
    if is_absolute(link) {
        owned(link)
    } else {
        let mut s = owned(base);
        s.append(link);
        s
    }
}

/// An icon: `prefix:name` as an Iconify mask, a URL or a `.svg`/`.png`
/// path as an image, anything else (an emoji) as it is.
pub fn render_icon(icon: &str, base: &str) -> (r: String) {
    let cs = chars_of(icon);
    let mut colon: usize = 0;
    while colon < cs.len() && cs[colon] != ':'
        invariant
            colon <= cs@.len(),
        decreases cs@.len() - colon,
    {
        colon = colon + 1;
    }
    if colon < cs.len() {
        let prefix = crate::text::string_of(&cs, 0, colon);
        let name = crate::text::string_of(&cs, colon + 1, cs.len());
        let mut slash = false;
        let mut k: usize = 0;
        while k < colon
            invariant
                k <= colon,
                colon < cs@.len(),
            decreases colon - k,
        {
            if cs[k] == '/' {
                slash = true;
            }
            k = k + 1;
        }
        if !slash && !has_prefix(name.as_str(), "//") {
            let mut url = owned("https://api.iconify.design/");
            url.append(prefix.as_str());
            url.append("/");
            url.append(name.as_str());
            url.append(".svg");
            let mut out = owned("<span class=\"iconify-icon\" style=\"-webkit-mask-image: url('");
            out.append(url.as_str());
            out.append("'); mask-image: url('");
            out.append(url.as_str());
            out.append("')\"></span>");
            return out;
        }
    }
    if has_prefix(icon, "http://") || has_prefix(icon, "https://") {
        let mut out = owned("<img src=\"");
        out.append(icon);
        out.append("\" alt=\"\" />");
        return out;
    }
    if has_suffix(icon, ".svg") || has_suffix(icon, ".png") {
        let src = if has_prefix(icon, "/") {
            owned(icon)
        } else {
            let mut s = owned(base);
            s.append(icon);
            s
        };
        let mut out = owned("<img src=\"");
        out.append(src.as_str());
        out.append("\" alt=\"\" />");
        return out;
    }
    owned(icon)
}

fn push_escaped_line(html: &mut String, open: &str, text: &str, close: &str) {
    html.append(open);
    html.append(html_escape(text).as_str());
    html.append(close);
}

fn push_hero(html: &mut String, hero: &HeroConfig, base: &str) {
    html.append("<section class=\"hero\">\n");
    html.append("  <div class=\"hero-content\">\n");
    match &hero.name {
        Some(n) => push_escaped_line(html, "    <h1 class=\"hero-name\">", n.as_str(), "</h1>\n"),
        None => {},
    }
    match &hero.text {
        Some(t) => push_escaped_line(html, "    <p class=\"hero-text\">", t.as_str(), "</p>\n"),
        None => {},
    }
    match &hero.tagline {
        Some(t) => push_escaped_line(html, "    <p class=\"hero-tagline\">", t.as_str(), "</p>\n"),
        None => {},
    }
    match &hero.image {
        Some(image) => {
            html.append("    <div class=\"hero-image\">\n      <img src=\"");
            html.append(resolve(base, image.src.as_str()).as_str());
            html.append("\" alt=\"");
            match &image.alt {
                Some(a) => html.append(html_escape(a.as_str()).as_str()),
                None => {},
            }
            html.append("\"");
            match image.width {
                Some(w) => {
                    html.append(" width=\"");
                    html.append(crate::checker::decimal_string(w as usize).as_str());
                    html.append("\"");
                },
                None => {},
            }
            match image.height {
                Some(h) => {
                    html.append(" height=\"");
                    html.append(crate::checker::decimal_string(h as usize).as_str());
                    html.append("\"");
                },
                None => {},
            }
            html.append(" />\n    </div>\n");
        },
        None => {},
    }
    match &hero.actions {
        Some(actions) => {
            if actions.len() > 0 {
                html.append("    <div class=\"hero-actions\">\n");
                let mut i: usize = 0;
                while i < actions.len()
                    invariant
                        i <= actions@.len(),
                    decreases actions@.len() - i,
                {
                    let action = &actions[i];
                    let theme_class = match &action.theme {
                        Some(t) => if str_eq(t.as_str(), "alt") {
                            "hero-action-alt"
                        } else {
                            "hero-action-brand"
                        },
                        None => "hero-action-brand",
                    };
                    html.append("      <a href=\"");
                    html.append(resolve(base, action.link.as_str()).as_str());
                    html.append("\" class=\"hero-action ");
                    html.append(theme_class);
                    html.append("\">");
                    html.append(html_escape(action.text.as_str()).as_str());
                    html.append("</a>\n");
                    i = i + 1;
                }
                html.append("    </div>\n");
            }
        },
        None => {},
    }
    html.append("  </div>\n");
    html.append("</section>\n");
}

fn push_feature(html: &mut String, feature: &FeatureConfig, base: &str) {
    let tag = if feature.link.is_some() {
        "a"
    } else {
        "div"
    };
    html.append("    <");
    html.append(tag);
    html.append(" class=\"feature-card\"");
    match &feature.link {
        Some(link) => {
            html.append(" href=\"");
            html.append(resolve(base, link.as_str()).as_str());
            html.append("\"");
        },
        None => {},
    }
    html.append(">\n");
    match &feature.icon {
        Some(icon) => {
            html.append("      <div class=\"feature-icon\">");
            html.append(render_icon(icon.as_str(), base).as_str());
            html.append("</div>\n");
        },
        None => {},
    }
    html.append("      <div class=\"feature-body\">\n");
    push_escaped_line(html, "        <h3 class=\"feature-title\">", feature.title.as_str(), "</h3>\n");
    match &feature.details {
        Some(d) => push_escaped_line(html, "        <p class=\"feature-details\">", d.as_str(), "</p>\n"),
        None => {},
    }
    html.append("      </div>\n");
    if feature.link.is_some() {
        html.append("      <span class=\"feature-link\"></span>\n");
    }
    html.append("    </");
    html.append(tag);
    html.append(">\n");
}

/// The entry page: a hero section (name, text, tagline, image, action
/// links) and a grid of feature cards; relative links get `base` in front.
pub fn generate_entry_html(entry: &EntryPageConfig, base: &str) -> (r: String)
    ensures
        entry.hero is None && entry.features is None ==> r@.len() == 0,
{
    let mut html = String::new();
    match &entry.hero {
        Some(hero) => push_hero(&mut html, hero, base),
        None => {},
    }
    match &entry.features {
        Some(features) => {
            if features.len() > 0 {
                html.append("<section class=\"features\">\n");
                html.append("  <div class=\"features-grid\">\n");
                let mut i: usize = 0;
                while i < features.len()
                    invariant
                        i <= features@.len(),
                    decreases features@.len() - i,
                {
                    push_feature(&mut html, &features[i], base);
                    i = i + 1;
                }
                html.append("  </div>\n");
                html.append("</section>\n");
            }
        },
        None => {},
    }
    html
}

/// Header links to the configured social profiles, with their icons.
pub fn generate_social_links_html(links: &SocialLinks) -> (r: String)
    ensures
        links.github is None && links.twitter is None && links.discord is None ==> r@.len() == 0,
{
    let mut html = String::new();
    match &links.github {
        Some(link) => {
            html.append("      <a href=\"");
            html.append(link.as_str());
            html.append("\" class=\"social-link\" aria-label=\"GitHub\" target=\"_blank\" rel=\"noopener\">\n        <svg viewBox=\"0 0 24 24\" width=\"20\" height=\"20\" fill=\"currentColor\">\n          <path d=\"M12 0c-6.626 0-12 5.373-12 12 0 5.302 3.438 9.8 8.207 11.387.599.111.793-.261.793-.577v-2.234c-3.338.726-4.033-1.416-4.033-1.416-.546-1.387-1.333-1.756-1.333-1.756-1.089-.745.083-.729.083-.729 1.205.084 1.839 1.237 1.839 1.237 1.07 1.834 2.807 1.304 3.492.997.107-.775.418-1.305.762-1.604-2.665-.305-5.467-1.334-5.467-5.931 0-1.311.469-2.381 1.236-3.221-.124-.303-.535-1.524.117-3.176 0 0 1.008-.322 3.301 1.23.957-.266 1.983-.399 3.003-.404 1.02.005 2.047.138 3.006.404 2.291-1.552 3.297-1.23 3.297-1.23.653 1.653.242 2.874.118 3.176.77.84 1.235 1.911 1.235 3.221 0 4.609-2.807 5.624-5.479 5.921.43.372.823 1.102.823 2.222v3.293c0 .319.192.694.801.576 4.765-1.589 8.199-6.086 8.199-11.386 0-6.627-5.373-12-12-12z\"/>\n        </svg>\n      </a>\n");
        },
        None => {},
    }
    match &links.twitter {
        Some(link) => {
            html.append("      <a href=\"");
            html.append(link.as_str());
            html.append("\" class=\"social-link\" aria-label=\"Twitter\" target=\"_blank\" rel=\"noopener\">\n        <svg viewBox=\"0 0 24 24\" width=\"20\" height=\"20\" fill=\"currentColor\">\n          <path d=\"M18.244 2.25h3.308l-7.227 8.26 8.502 11.24H16.17l-5.214-6.817L4.99 21.75H1.68l7.73-8.835L1.254 2.25H8.08l4.713 6.231zm-1.161 17.52h1.833L7.084 4.126H5.117z\"/>\n        </svg>\n      </a>\n");
        },
        None => {},
    }
    match &links.discord {
        Some(link) => {
            html.append("      <a href=\"");
            html.append(link.as_str());
            html.append("\" class=\"social-link\" aria-label=\"Discord\" target=\"_blank\" rel=\"noopener\">\n        <svg viewBox=\"0 0 24 24\" width=\"20\" height=\"20\" fill=\"currentColor\">\n          <path d=\"M20.317 4.3698a19.7913 19.7913 0 00-4.8851-1.5152.0741.0741 0 00-.0785.0371c-.211.3753-.4447.8648-.6083 1.2495-1.8447-.2762-3.68-.2762-5.4868 0-.1636-.3933-.4058-.8742-.6177-1.2495a.077.077 0 00-.0785-.037 19.7363 19.7363 0 00-4.8852 1.515.0699.0699 0 00-.0321.0277C.5334 9.0458-.319 13.5799.0992 18.0578a.0824.0824 0 00.0312.0561c2.0528 1.5076 4.0413 2.4228 5.9929 3.0294a.0777.0777 0 00.0842-.0276c.4616-.6304.8731-1.2952 1.226-1.9942a.076.076 0 00-.0416-.1057c-.6528-.2476-1.2743-.5495-1.8722-.8923a.077.077 0 01-.0076-.1277c.1258-.0943.2517-.1923.3718-.2914a.0743.0743 0 01.0776-.0105c3.9278 1.7933 8.18 1.7933 12.0614 0a.0739.0739 0 01.0785.0095c.1202.099.246.1981.3728.2924a.077.077 0 01-.0066.1276 12.2986 12.2986 0 01-1.873.8914.0766.0766 0 00-.0407.1067c.3604.698.7719 1.3628 1.225 1.9932a.076.076 0 00.0842.0286c1.961-.6067 3.9495-1.5219 6.0023-3.0294a.077.077 0 00.0313-.0552c.5004-5.177-.8382-9.6739-3.5485-13.6604a.061.061 0 00-.0312-.0286zM8.02 15.3312c-1.1825 0-2.1569-1.0857-2.1569-2.419 0-1.3332.9555-2.4189 2.157-2.4189 1.2108 0 2.1757 1.0952 2.1568 2.419 0 1.3332-.9555 2.4189-2.1569 2.4189zm7.9748 0c-1.1825 0-2.1569-1.0857-2.1569-2.419 0-1.3332.9554-2.4189 2.1569-2.4189 1.2108 0 2.1757 1.0952 2.1568 2.419 0 1.3332-.946 2.4189-2.1568 2.4189z\"/>\n        </svg>\n      </a>\n");
        },
        None => {},
    }
    html
}

/// Footer buttons of the mobile layout for the configured social profiles.
pub fn generate_mobile_social_links_html(links: &SocialLinks) -> (r: String)
    ensures
        links.github is None && links.twitter is None && links.discord is None ==> r@.len() == 0,
{
    let mut html = String::new();
    match &links.github {
        Some(link) => {
            html.append("    <a href=\"");
            html.append(link.as_str());
            html.append("\" class=\"mobile-footer-btn\" aria-label=\"GitHub\" target=\"_blank\" rel=\"noopener\">\n      <svg viewBox=\"0 0 24 24\" width=\"22\" height=\"22\" fill=\"currentColor\">\n        <path d=\"M12 0c-6.626 0-12 5.373-12 12 0 5.302 3.438 9.8 8.207 11.387.599.111.793-.261.793-.577v-2.234c-3.338.726-4.033-1.416-4.033-1.416-.546-1.387-1.333-1.756-1.333-1.756-1.089-.745.083-.729.083-.729 1.205.084 1.839 1.237 1.839 1.237 1.07 1.834 2.807 1.304 3.492.997.107-.775.418-1.305.762-1.604-2.665-.305-5.467-1.334-5.467-5.931 0-1.311.469-2.381 1.236-3.221-.124-.303-.535-1.524.117-3.176 0 0 1.008-.322 3.301 1.23.957-.266 1.983-.399 3.003-.404 1.02.005 2.047.138 3.006.404 2.291-1.552 3.297-1.23 3.297-1.23.653 1.653.242 2.874.118 3.176.77.84 1.235 1.911 1.235 3.221 0 4.609-2.807 5.624-5.479 5.921.43.372.823 1.102.823 2.222v3.293c0 .319.192.694.801.576 4.765-1.589 8.199-6.086 8.199-11.386 0-6.627-5.373-12-12-12z\"/>\n      </svg>\n      <span class=\"mobile-footer-label\">GitHub</span>\n    </a>\n");
        },
        None => {},
    }
    match &links.twitter {
        Some(link) => {
            html.append("    <a href=\"");
            html.append(link.as_str());
            html.append("\" class=\"mobile-footer-btn\" aria-label=\"Twitter\" target=\"_blank\" rel=\"noopener\">\n      <svg viewBox=\"0 0 24 24\" width=\"22\" height=\"22\" fill=\"currentColor\">\n        <path d=\"M18.244 2.25h3.308l-7.227 8.26 8.502 11.24H16.17l-5.214-6.817L4.99 21.75H1.68l7.73-8.835L1.254 2.25H8.08l4.713 6.231zm-1.161 17.52h1.833L7.084 4.126H5.117z\"/>\n      </svg>\n      <span class=\"mobile-footer-label\">Twitter</span>\n    </a>\n");
        },
        None => {},
    }
    match &links.discord {
        Some(link) => {
            html.append("    <a href=\"");
            html.append(link.as_str());
            html.append("\" class=\"mobile-footer-btn\" aria-label=\"Discord\" target=\"_blank\" rel=\"noopener\">\n      <svg viewBox=\"0 0 24 24\" width=\"22\" height=\"22\" fill=\"currentColor\">\n        <path d=\"M20.317 4.3698a19.7913 19.7913 0 00-4.8851-1.5152.0741.0741 0 00-.0785.0371c-.211.3753-.4447.8648-.6083 1.2495-1.8447-.2762-3.68-.2762-5.4868 0-.1636-.3933-.4058-.8742-.6177-1.2495a.077.077 0 00-.0785-.037 19.7363 19.7363 0 00-4.8852 1.515.0699.0699 0 00-.0321.0277C.5334 9.0458-.319 13.5799.0992 18.0578a.0824.0824 0 00.0312.0561c2.0528 1.5076 4.0413 2.4228 5.9929 3.0294a.0777.0777 0 00.0842-.0276c.4616-.6304.8731-1.2952 1.226-1.9942a.076.076 0 00-.0416-.1057c-.6528-.2476-1.2743-.5495-1.8722-.8923a.077.077 0 01-.0076-.1277c.1258-.0943.2517-.1923.3718-.2914a.0743.0743 0 01.0776-.0105c3.9278 1.7933 8.18 1.7933 12.0614 0a.0739.0739 0 01.0785.0095c.1202.099.246.1981.3728.2924a.077.077 0 01-.0066.1276 12.2986 12.2986 0 01-1.873.8914.0766.0766 0 00-.0407.1067c.3604.698.7719 1.3628 1.225 1.9932a.076.076 0 00.0842.0286c1.961-.6067 3.9495-1.5219 6.0023-3.0294a.077.077 0 00.0313-.0552c.5004-5.177-.8382-9.6739-3.5485-13.6604a.061.061 0 00-.0312-.0286zM8.02 15.3312c-1.1825 0-2.1569-1.0857-2.1569-2.419 0-1.3332.9555-2.4189 2.157-2.4189 1.2108 0 2.1757 1.0952 2.1568 2.419 0 1.3332-.9555 2.4189-2.1569 2.4189zm7.9748 0c-1.1825 0-2.1569-1.0857-2.1569-2.419 0-1.3332.9554-2.4189 2.1569-2.4189 1.2108 0 2.1757 1.0952 2.1568 2.419 0 1.3332-.946 2.4189-2.1568 2.4189z\"/>\n      </svg>\n      <span class=\"mobile-footer-label\">Discord</span>\n    </a>\n");
        },
        None => {},
    }
    html
}

} // verus!
