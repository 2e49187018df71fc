use freedom_network::sites::{SiteServer, requested_file};

#[test]
fn test_site_registration() {
    let mut server = SiteServer::new();

    server
        .register_site(
            "test.freedom".to_string(),
            "sites/test".to_string(),
            "index.html".to_string(),
        )
        .unwrap();

    let site = server.get_site("test.freedom");
    assert!(site.is_some());
    assert_eq!(site.unwrap().domain, "test.freedom");
}

#[test]
fn registration_replaces_by_domain() {
    let mut server = SiteServer::new();
    server
        .register_site("a.freedom".to_string(), "one".to_string(), "index.html".to_string())
        .unwrap();
    server
        .register_site("a.freedom".to_string(), "two".to_string(), "main.html".to_string())
        .unwrap();
    let site = server.get_site("a.freedom").unwrap();
    assert_eq!(site.content_path, "two");
    assert_eq!(site.index_file, "main.html");
    assert_eq!(server.list_sites().len(), 1);
}

#[test]
fn site_info_is_a_projection() {
    let mut server = SiteServer::new();
    server
        .register_site("b.freedom".to_string(), "root".to_string(), "start.html".to_string())
        .unwrap();
    let info = server.get_site_info("b.freedom").unwrap();
    assert_eq!(info.domain, "b.freedom");
    assert_eq!(info.index_file, "start.html");
    assert!(server.get_site_info("missing.freedom").is_none());
}

#[test]
fn request_paths_select_files() {
    let mut server = SiteServer::new();
    server
        .register_site("c.freedom".to_string(), "root".to_string(), "index.html".to_string())
        .unwrap();
    let site = server.get_site("c.freedom").unwrap();
    assert_eq!(requested_file(&site, ""), "index.html");
    assert_eq!(requested_file(&site, "/"), "index.html");
    assert_eq!(requested_file(&site, "/docs/a.html"), "docs/a.html");
    assert_eq!(requested_file(&site, "plain.html"), "plain.html");
}
