use syscallcage::path::{path_components, path_parent, render_components};

fn chars(s: &str) -> Vec<char> {
    s.chars().collect()
}

fn text(v: &[char]) -> String {
    v.iter().collect()
}

fn comps(s: &str) -> Vec<String> {
    path_components(&chars(s)).iter().map(|c| text(c)).collect()
}

fn parent(s: &str) -> Option<String> {
    path_parent(&chars(s)).map(|p| text(&p))
}

#[test]
fn components_follow_std() {
    for p in ["/home//user/./a.rs/", "./a/../b", "a/b", "/", "", ".", "..", "/./x", "//a"] {
        let expected: Vec<String> = std::path::Path::new(p)
            .components()
            .map(|c| c.as_os_str().to_string_lossy().into_owned())
            .collect();
        assert_eq!(comps(p), expected, "components of {:?}", p);
    }
}

#[test]
fn parents_follow_std() {
    for p in ["/home//user/a", "/home/user/a/", "/a", "/", "", ".", "./a", "a", "a//b", "/a/./b/.", "..", "//a", "/a/b/.."] {
        let expected = std::path::Path::new(p).parent().map(|q| q.to_string_lossy().into_owned());
        assert_eq!(parent(p), expected, "parent of {:?}", p);
    }
}

#[test]
fn rendering_follows_push() {
    for p in ["/home/user/a", "a/b", "./a", "/", "..", "../x"] {
        let c = path_components(&chars(p));
        let mut buf = std::path::PathBuf::new();
        for x in c.iter() {
            buf.push(text(x));
        }
        assert_eq!(text(&render_components(&c)), buf.to_string_lossy().into_owned());
    }
}
