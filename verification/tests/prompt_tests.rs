use rshell::editor::line_editor::visual_length;
use rshell::prompt::{Context, Prompt};

fn context(
    cwd: Option<&str>,
    home: Option<&str>,
    user: Option<&str>,
    username: Option<&str>,
    hostname: Option<&str>,
) -> Context {
    Context {
        cwd: cwd.map(String::from),
        home: home.map(String::from),
        user: user.map(String::from),
        username: username.map(String::from),
        hostname: hostname.map(String::from),
    }
}

/// The prompt with and without colours. One test holds all that depends on
/// the switch, which is set for the whole process.
#[test]
fn the_prompt_is_laid_out_and_painted() {
    colored::control::set_override(false);
    assert_eq!(Prompt::render("ann", "box", "~/src"), "ann@box:~/src $ ");
    assert_eq!(Prompt::render("root", "box", "/"), "root@box:/ # ");
    assert_eq!(Prompt::render("", "", ""), "@: $ ");
    let p = Prompt::new();
    let c = context(Some("/home/ann/src"), Some("/home/ann"), Some("ann"), Some("other"), Some("box"));
    assert_eq!(p.get_string(&c), "ann@box:~/src $ ");
    let c = context(Some("/home/ann"), Some("/home/ann"), None, Some("bob"), Some("Box"));
    assert_eq!(p.get_string(&c), "bob@Box:~ $ ");
    let c = context(Some("/home/annex"), Some("/home/ann"), None, None, Some("h"));
    assert_eq!(p.get_string(&c), "unknown@h:~ex $ ");
    let c = context(Some("/var/home/ann"), Some("/home/ann"), Some("root"), None, Some("h"));
    assert_eq!(p.get_string(&c), "root@h:/var/home/ann # ");
    let c = context(Some("/tmp"), None, Some("Root"), None, Some("h"));
    assert_eq!(p.get_string(&c), "Root@h:/tmp $ ");
    let c = context(None, Some("/home/ann"), Some("ann"), None, Some("h"));
    assert_eq!(p.get_string(&c), "ann@h:? $ ");
    let c = context(Some("/tmp"), Some(""), Some("ann"), None, Some("h"));
    assert_eq!(p.get_string(&c), "ann@h:~/tmp $ ");

    colored::control::set_override(true);
    assert_eq!(
        Prompt::render("ann", "box", "~/src"),
        "\x1b[32mann\x1b[0m@\x1b[32mbox\x1b[0m:\x1b[34m~/src\x1b[0m \x1b[37m$\x1b[0m "
    );
    assert_eq!(
        Prompt::render("root", "h", "/"),
        "\x1b[32mroot\x1b[0m@\x1b[32mh\x1b[0m:\x1b[34m/\x1b[0m \x1b[37m#\x1b[0m "
    );
    let c = context(Some("/home/ann/src"), Some("/home/ann"), Some("ann"), None, Some("box"));
    let painted = p.get_string(&c);
    assert_eq!(
        painted,
        "\x1b[32mann\x1b[0m@\x1b[32mbox\x1b[0m:\x1b[34m~/src\x1b[0m \x1b[37m$\x1b[0m "
    );
    assert_eq!(visual_length(&painted), "ann@box:~/src $ ".chars().count());
    assert_eq!(visual_length(&Prompt::render("é", "日本", "/ü")), 1 + 2 + 2 + 5);

    colored::control::set_override(false);
    let c = context(Some("/"), None, Some("ann"), None, None);
    let asked = p.get_string(&c);
    assert!(asked.starts_with("ann@"));
    assert!(asked.ends_with(":/ $ "));
    let host = &asked["ann@".len()..asked.len() - ":/ $ ".len()];
    assert!(!host.chars().any(|c| c.is_ascii_uppercase()));
    colored::control::unset_override();
}
