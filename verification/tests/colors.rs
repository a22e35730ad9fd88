//! The prompt with colors forced on and off.
use shell::prompt::prompt_text;

#[test]
fn prompt_colors_when_forced() {
    colored::control::set_override(true);
    assert_eq!(
        prompt_text(0, "10:11:12", "/tmp", None),
        "\x1b[2m000\x1b[0m \x1b[2m10:11:12\x1b[0m /tmp  "
    );
    assert_eq!(
        prompt_text(-3, "10:11:12", "/tmp", None),
        "\x1b[47;30m003\x1b[0m \x1b[2m10:11:12\x1b[0m /tmp  "
    );
    colored::control::set_override(false);
    assert_eq!(prompt_text(42, "10:11:12", "/tmp", None), "042 10:11:12 /tmp  ");
    assert_eq!(prompt_text(0, "\x1b[1m10\x1b[0m", "/tmp", None), "000 \x1b[1m10\x1b[0m /tmp  ");
    colored::control::unset_override();
}
