use ssg::content::{discovery_order, is_markdown, markdown_files, sort_by_name_descending};
use ssg::paths::{file_name, file_stem, join_path, parent_dir};
use ssg::resources::{is_file_name, optimize_static_file, with_extension, StaticOutcome};
use ssg::site::{
    extract_page_info, get_template_name, holds_no_script, output_bytes, page_type_for, reconcile_configuration_directory_paths,
    retrieve_cache, retrieve_configuration, Build, Config, Frontmatter, Page, PageType, Paths, Site,
    SiteMetadata,
};

fn config() -> Config {
    Config {
        metadata: SiteMetadata {
            base_url: "https://example.com".to_string(),
            author: "someone".to_string(),
            description: "a site".to_string(),
        },
        paths: Paths {
            content_dir: "content".to_string(),
            template_dir: "templates".to_string(),
            output_dir: "output".to_string(),
            static_dir: "static".to_string(),
        },
        build: Build { minify_html: false, generate_sitemap: false, cache: true },
    }
}

fn front(title: &str) -> Frontmatter {
    Frontmatter {
        title: Some(title.to_string()),
        date: Some("2024-01-01".to_string()),
        tags: Some(vec!["x".to_string()]),
        description: None,
    }
}

fn page(name: &str, page_type: PageType) -> Page {
    extract_page_info("https://e.com".to_string(), &format!("c/{name}.md"), front(name), String::new(), page_type)
}

#[test]
fn post_directory_gives_post_with_url() {
    let mut site = Site::new(config());
    let kind = site.add_content_file("/site/content/post/hello.md", Some((front("Hello"), "body".to_string())));
    assert_eq!(kind, Some(PageType::Post));
    assert_eq!(site.posts.len(), 1);
    let p = &site.posts[0];
    assert_eq!(p.page_type, PageType::Post);
    assert_eq!(p.name, "hello");
    assert_eq!(p.url.as_deref(), Some("https://example.com/hello.html"));
    assert_eq!(p.title.as_deref(), Some("Hello"));
    assert_eq!(p.content, "body");
}

#[test]
fn unknown_directory_gives_no_page() {
    let mut site = Site::new(config());
    let kind = site.add_content_file("/site/content/unknown_dir/x.md", Some((front("X"), String::new())));
    assert_eq!(kind, Some(PageType::Unknown));
    assert!(site.index.is_none());
    assert!(site.pages.is_empty());
    assert!(site.posts.is_empty());
}

#[test]
fn file_without_frontmatter_gives_no_page() {
    let mut site = Site::new(config());
    assert_eq!(site.add_content_file("content/page/a.md", None), None);
    assert!(site.pages.is_empty());
}

#[test]
fn index_and_pages_are_routed() {
    let mut site = Site::new(config());
    site.add_content_file("content/index/home.md", Some((front("Home"), String::new())));
    site.add_content_file("content/page/about.md", Some((front("About"), String::new())));
    assert_eq!(site.index.as_ref().unwrap().name, "home");
    assert_eq!(site.pages[0].url.as_deref(), Some("https://example.com/about.html"));
}

#[test]
fn add_page_keeps_order_and_replaces_index() {
    let mut site = Site::new(config());
    site.add_page(page("a", PageType::Page), PageType::Page);
    site.add_page(page("b", PageType::Page), PageType::Page);
    site.add_page(page("i1", PageType::Index), PageType::Index);
    site.add_page(page("i2", PageType::Index), PageType::Index);
    site.add_page(page("u", PageType::Unknown), PageType::Unknown);
    assert_eq!(site.pages.iter().map(|p| p.name.as_str()).collect::<Vec<_>>(), vec!["a", "b"]);
    assert_eq!(site.index.as_ref().unwrap().name, "i2");
    assert!(site.posts.is_empty());
}

#[test]
fn template_names_follow_kind() {
    assert_eq!(Site::get_template_name(&page("a", PageType::Index)), "index");
    assert_eq!(Site::get_template_name(&page("a", PageType::Page)), "page");
    assert_eq!(Site::get_template_name(&page("a", PageType::Post)), "post");
    assert_eq!(Site::get_template_name(&page("a", PageType::Unknown)), "");
}

#[test]
fn folder_name_is_template_name() {
    assert_eq!(get_template_name("/a/content/post/x.md"), "post");
    assert_eq!(page_type_for("index"), PageType::Index);
    assert_eq!(page_type_for("Post"), PageType::Unknown);
}

#[test]
fn page_info_uses_stem_and_base_url() {
    let p = extract_page_info("https://b.org".to_string(), "dir/my.post.md", front("T"), "c".to_string(), PageType::Page);
    assert_eq!(p.name, "my.post");
    assert_eq!(p.url.as_deref(), Some("https://b.org/my.post.html"));
    assert_eq!(p.tags, Some(vec!["x".to_string()]));
    assert_eq!(p.date.as_deref(), Some("2024-01-01"));
}

#[test]
fn discovery_is_descending_by_file_name() {
    let files = vec![
        "content/page/b.md".to_string(),
        "content/page/a.md".to_string(),
        "content/page/c.md".to_string(),
    ];
    assert_eq!(
        discovery_order(files),
        vec!["content/page/c.md".to_string(), "content/page/b.md".to_string(), "content/page/a.md".to_string()]
    );
}

#[test]
fn discovery_keeps_only_markdown() {
    let files = vec![
        "content".to_string(),
        "content/post".to_string(),
        "content/post/z.txt".to_string(),
        "content/post/m.md".to_string(),
        "content/.md".to_string(),
        "content/index/a.md".to_string(),
    ];
    assert_eq!(markdown_files(files.clone()), vec!["content/post/m.md".to_string(), "content/index/a.md".to_string()]);
    assert_eq!(discovery_order(files), vec!["content/post/m.md".to_string(), "content/index/a.md".to_string()]);
    assert!(is_markdown("x/y.md"));
    assert!(!is_markdown("x/y.mdx"));
}

#[test]
fn path_helpers() {
    assert_eq!(join_path("/base", "content"), "/base/content");
    assert_eq!(join_path("/base/", "content"), "/base/content");
    assert_eq!(join_path("/base", "/abs"), "/abs");
    assert_eq!(join_path("", "rel"), "rel");
    assert_eq!(parent_dir("/etc/site/config.yml"), "/etc/site");
    assert_eq!(parent_dir("config.yml"), "");
    assert_eq!(parent_dir("/config.yml"), "/");
    assert_eq!(file_name("a/b/c.md"), "c.md");
    assert_eq!(file_stem("a/b/c.tar.gz"), "c.tar");
    assert_eq!(file_stem("a/.hidden"), ".hidden");
}

#[test]
fn configuration_paths_resolve_against_config_dir() {
    let c = retrieve_configuration("/srv/site/config.yml", config());
    assert_eq!(c.paths.content_dir, "/srv/site/content");
    assert_eq!(c.paths.output_dir, "/srv/site/output");
    assert_eq!(c.metadata.base_url, "https://example.com");
    let p = reconcile_configuration_directory_paths("/x", config().paths);
    assert_eq!(p.static_dir, "/x/static");
    assert_eq!(p.template_dir, "/x/templates");
}

#[test]
fn cache_lives_in_output_dir() {
    let ctx = retrieve_cache(&retrieve_configuration("/srv/config.yml", config()), None);
    assert_eq!(ctx.path, "/srv/output/cache.json");
    assert!(ctx.cache.file_data.is_empty());
}

#[test]
fn page_preparation_names_file_and_template() {
    let site = Site::new(config());
    let mut t = tera::Tera::default();
    t.add_raw_template("partials/image.html", "<img>").unwrap();
    let p = extract_page_info("u".to_string(), "c/post/hi.md", front("T"), "# Hi".to_string(), PageType::Post);
    let job = site.prepare_page(&p, &t).unwrap();
    assert_eq!(job.output_path, "output/hi.html");
    assert_eq!(job.template, "post.html");
    assert_eq!(job.content_html, "<h1 class=\"text-3xl font-bold text-black-600 mb-6\">Hi</h1>");
}

#[test]
fn output_bytes_minify_only_when_asked() {
    let html = "<html>  <body>   <p>hi</p>   </body> </html>";
    assert_eq!(output_bytes(html, false), html.as_bytes().to_vec());
    let min = output_bytes(html, true);
    assert!(min.len() < html.len());
    assert_eq!(min, minify_html::minify(html.as_bytes(), &minify_html::Cfg { minify_js: true, minify_css: false, ..Default::default() }));
}

fn encoded(format: image::ImageFormat, w: u32, h: u32) -> Vec<u8> {
    let img = image::DynamicImage::ImageRgba8(image::RgbaImage::new(w, h));
    let mut out = std::io::Cursor::new(Vec::new());
    img.write_to(&mut out, format).unwrap();
    out.into_inner()
}

#[test]
fn static_image_becomes_webp() {
    let bytes = encoded(image::ImageFormat::Png, 4, 3);
    match optimize_static_file("out/static/pic.png", &bytes) {
        StaticOutcome::Written { path, bytes, width, height } => {
            assert_eq!(path, "out/static/pic.webp");
            assert_eq!((width, height), (1440, 1080));
            let back = image::load_from_memory_with_format(&bytes, image::ImageFormat::WebP).unwrap();
            assert_eq!((back.width(), back.height()), (1440, 1080));
        }
        other => panic!("unexpected {other:?}"),
    }
}

#[test]
fn large_image_is_bounded() {
    let bytes = encoded(image::ImageFormat::Png, 3840, 100);
    match optimize_static_file("out/wide.png", &bytes) {
        StaticOutcome::Written { bytes, width, height, .. } => {
            let back = image::load_from_memory_with_format(&bytes, image::ImageFormat::WebP).unwrap();
            assert_eq!(back.width(), 1920);
            assert_eq!((width, height), (1920, 50));
        }
        other => panic!("unexpected {other:?}"),
    }
}

#[test]
fn icon_stays_icon() {
    let bytes = encoded(image::ImageFormat::Ico, 16, 16);
    match optimize_static_file("out/favicon.ico", &bytes) {
        StaticOutcome::Written { path, bytes, width, height } => {
            assert_eq!(path, "out/favicon.ico");
            assert_eq!((width, height), (16, 16));
            assert!(image::load_from_memory_with_format(&bytes, image::ImageFormat::Ico).is_ok());
        }
        other => panic!("unexpected {other:?}"),
    }
}

#[test]
fn non_image_is_not_written() {
    assert!(matches!(optimize_static_file("out/notes.txt", &b"plain".to_vec()), StaticOutcome::NotAnImage));
    assert!(matches!(optimize_static_file("out/broken.png", &b"not png".to_vec()), StaticOutcome::NotAnImage));
    assert_eq!(with_extension("a/b/c.png", "webp"), "a/b/c.webp");
    assert_eq!(with_extension("c", "ico"), "c.ico");
}

#[test]
fn equal_names_keep_their_order() {
    let files = vec![
        "content/post/a.md".to_string(),
        "content/page/b.md".to_string(),
        "content/index/a.md".to_string(),
        "content/page/a.md".to_string(),
    ];
    assert_eq!(
        sort_by_name_descending(files),
        vec![
            "content/page/b.md".to_string(),
            "content/post/a.md".to_string(),
            "content/index/a.md".to_string(),
            "content/page/a.md".to_string(),
        ]
    );
}

#[test]
fn pages_with_scripts_are_written_unminified() {
    let html = "<html>  <body> <SCRIPT type=\"module\">export { missing };</SCRIPT>  </body> </html>";
    assert_eq!(output_bytes(html, true), html.as_bytes().to_vec());
    assert!(!holds_no_script(html.as_bytes()));
    assert!(holds_no_script(b"<p>scripted</p>"));
    assert!(holds_no_script(b"<scrip"));
}

#[test]
fn icon_extension_ignores_case() {
    let bytes = encoded(image::ImageFormat::Ico, 8, 8);
    match optimize_static_file("out/FAV.ICO", &bytes) {
        StaticOutcome::Written { path, width, height, .. } => {
            assert_eq!(path, "out/FAV.ico");
            assert_eq!((width, height), (8, 8));
        }
        other => panic!("unexpected {other:?}"),
    }
}

#[test]
fn file_names_are_recognised() {
    assert!(is_file_name("out/pic.png"));
    assert!(!is_file_name("out/"));
    assert!(!is_file_name("out/.."));
    assert!(!is_file_name("."));
}
