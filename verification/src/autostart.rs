//! What is written down so that the application starts with the system.

use crate::platform::{Base, Environment, Location, Place};
use crate::text;
use vstd::prelude::*;

verus! {

// ---- desktop entries ----

/// A character as it is written in a quoted argument.
pub open spec fn shell_escaped(c: char) -> Seq<char> {
    if c == '\\' || c == '`' || c == '$' || c == '"' {
        seq!['\\', c]
    } else {
        seq![c]
    }
}

/// A text as it is written in a quoted argument.
pub open spec fn escaped(s: Seq<char>) -> Seq<char>
    decreases s.len(),
{
    if s.len() == 0 {
        Seq::empty()
    } else {
        escaped(s.drop_last()) + shell_escaped(s.last())
    }
}

/// A quoted argument of a desktop entry. Its quotes are escaped like its other characters.
pub open spec fn quoted(value: Seq<char>) -> Seq<char> {
    escaped(seq!['"'] + value + seq!['"'])
}

fn push_escaped(out: &mut String, c: char)
    ensures
        final(out)@ == old(out)@ + shell_escaped(c),
{
    let ghost before = out@;
    if c == '\\' || c == '`' || c == '$' || c == '"' {
        out.push('\\');
    }
    out.push(c);
    assert(out@ =~= before + shell_escaped(c));
}

/// A quoted argument of a desktop entry.
pub fn quote(value: &str) -> (text: String)
    ensures
        text@ == quoted(value@),
{
    let chars = text::chars_of(value);
    let ghost whole = seq!['"'] + value@ + seq!['"'];
    let mut out = String::new();
    push_escaped(&mut out, '"');
    proof {
        assert(whole.take(1).drop_last() =~= Seq::<char>::empty());
        assert(escaped(whole.take(1).drop_last()) =~= Seq::<char>::empty());
        assert(out@ =~= escaped(whole.take(1)));
    }
    let mut i: usize = 0;
    while i < chars.len()
        invariant
            chars@ == value@,
            i <= chars@.len(),
            whole == seq!['"'] + value@ + seq!['"'],
            out@ == escaped(whole.take(i + 1)),
        decreases chars@.len() - i,
    {
        push_escaped(&mut out, chars[i]);
        assert(whole.take(i + 2).drop_last() =~= whole.take(i + 1));
        assert(whole.take(i + 2).last() == value@[i as int]);
        i = i + 1;
    }
    push_escaped(&mut out, '"');
    assert(whole.drop_last() =~= whole.take(i + 1));
    out
}

/// A quoted argument of a desktop entry.
pub fn desktop_exec_quote(value: &str) -> (text: String)
    ensures
        text@ == quoted(value@),
{
    quote(value)
}

/// The desktop entry that starts the application.
pub open spec fn desktop_entry_text(executable: Seq<char>, start_minimized: bool) -> Seq<char> {
    "[Desktop Entry]\nType=Application\nName=TabletFlow\nExec="@ + quoted(executable) + (
    if start_minimized {
        " --start-minimized"@
    } else {
        ""@
    }) + "\nX-GNOME-Autostart-enabled=true\n"@
}

/// The desktop entry that starts the application.
pub fn desktop_entry(executable: &str, start_minimized: bool) -> (text: String)
    ensures
        text@ == desktop_entry_text(executable@, start_minimized),
{
    let mut out = "[Desktop Entry]\nType=Application\nName=TabletFlow\nExec=".to_owned();
    let argument = quote(executable);
    out.append(argument.as_str());
    if start_minimized {
        out.append(" --start-minimized");
    } else {
        out.append("");
    }
    out.append("\nX-GNOME-Autostart-enabled=true\n");
    assert(out@ =~= desktop_entry_text(executable@, start_minimized));
    out
}

// ---- launch agents ----

/// A character as it is written in XML.
pub open spec fn xml_escaped(c: char) -> Seq<char> {
    if c == '&' {
        "&amp;"@
    } else if c == '<' {
        "&lt;"@
    } else if c == '>' {
        "&gt;"@
    } else {
        seq![c]
    }
}

/// A text as it is written in XML.
pub open spec fn xml_text(s: Seq<char>) -> Seq<char>
    decreases s.len(),
{
    if s.len() == 0 {
        Seq::empty()
    } else {
        xml_text(s.drop_last()) + xml_escaped(s.last())
    }
}

fn push_xml(out: &mut String, value: &str)
    ensures
        final(out)@ == old(out)@ + xml_text(value@),
{
    let chars = text::chars_of(value);
    let ghost before = out@;
    let mut i: usize = 0;
    assert(before + xml_text(value@.take(0)) =~= before);
    while i < chars.len()
        invariant
            chars@ == value@,
            i <= chars@.len(),
            out@ == before + xml_text(value@.take(i as int)),
        decreases chars@.len() - i,
    {
        let c = chars[i];
        let ghost so_far = out@;
        if c == '&' {
            out.append("&amp;");
        } else if c == '<' {
            out.append("&lt;");
        } else if c == '>' {
            out.append("&gt;");
        } else {
            out.push(c);
            assert(out@ =~= so_far + seq![c]);
        }
        assert(value@.take(i + 1).drop_last() =~= value@.take(i as int));
        assert(out@ =~= before + xml_text(value@.take(i + 1)));
        i = i + 1;
    }
    assert(value@.take(i as int) =~= value@);
}

/// The launch agent that starts the application.
pub open spec fn launch_agent_text(executable: Seq<char>, start_minimized: bool) -> Seq<char> {
    "<?xml version=\"1.0\" encoding=\"UTF-8\"?><!DOCTYPE plist PUBLIC \"-//Apple//DTD PLIST 1.0//EN\" \"http://www.apple.com/DTDs/PropertyList-1.0.dtd\"><plist version=\"1.0\"><dict><key>Label</key><string>com.underweek.tabletflow</string><key>ProgramArguments</key><array><string>"@
        + xml_text(executable) + "</string>"@ + (if start_minimized {
        "<string>--start-minimized</string>"@
    } else {
        ""@
    }) + "</array><key>RunAtLoad</key><true/></dict></plist>"@
}

/// The launch agent that starts the application.
pub fn launch_agent(executable: &str, start_minimized: bool) -> (text: String)
    ensures
        text@ == launch_agent_text(executable@, start_minimized),
{
    let mut out = "<?xml version=\"1.0\" encoding=\"UTF-8\"?><!DOCTYPE plist PUBLIC \"-//Apple//DTD PLIST 1.0//EN\" \"http://www.apple.com/DTDs/PropertyList-1.0.dtd\"><plist version=\"1.0\"><dict><key>Label</key><string>com.underweek.tabletflow</string><key>ProgramArguments</key><array><string>".to_owned();
    push_xml(&mut out, executable);
    out.append("</string>");
    if start_minimized {
        out.append("<string>--start-minimized</string>");
    } else {
        out.append("");
    }
    out.append("</array><key>RunAtLoad</key><true/></dict></plist>");
    out
}

/// The launch agent that starts the application, on lines of its own.
pub open spec fn launch_agent_lines(executable: Seq<char>, start_minimized: bool) -> Seq<char> {
    "<?xml version=\"1.0\" encoding=\"UTF-8\"?>\n<!DOCTYPE plist PUBLIC \"-//Apple//DTD PLIST 1.0//EN\" \"http://www.apple.com/DTDs/PropertyList-1.0.dtd\">\n<plist version=\"1.0\"><dict>\n<key>Label</key><string>com.underweek.tabletflow</string>\n<key>ProgramArguments</key><array>\n            <string>"@
        + xml_text(executable) + "</string>\n"@ + (if start_minimized {
        "            <string>--start-minimized</string>\n"@
    } else {
        ""@
    }) + "</array>\n<key>RunAtLoad</key><true/>\n</dict></plist>\n"@
}

/// The launch agent that starts the application, on lines of its own.
pub fn indented_launch_agent(executable: &str, start_minimized: bool) -> (text: String)
    ensures
        text@ == launch_agent_lines(executable@, start_minimized),
{
    let mut out = "<?xml version=\"1.0\" encoding=\"UTF-8\"?>\n<!DOCTYPE plist PUBLIC \"-//Apple//DTD PLIST 1.0//EN\" \"http://www.apple.com/DTDs/PropertyList-1.0.dtd\">\n<plist version=\"1.0\"><dict>\n<key>Label</key><string>com.underweek.tabletflow</string>\n<key>ProgramArguments</key><array>\n            <string>".to_owned();
    push_xml(&mut out, executable);
    out.append("</string>\n");
    if start_minimized {
        out.append("            <string>--start-minimized</string>\n");
    } else {
        out.append("");
    }
    out.append("</array>\n<key>RunAtLoad</key><true/>\n</dict></plist>\n");
    out
}

/// The domain of a user's launch agents.
pub fn launch_domain(uid: &str) -> (domain: String)
    ensures
        domain@ == "gui/"@ + uid@,
{
    "gui/".to_owned().concat(uid)
}

/// A user's number, as the system prints it, or what stands in for it.
pub open spec fn user_number(printed: Option<Seq<char>>, fallback: Seq<char>) -> Seq<char> {
    match printed {
        Some(line) => if text::trim_end(text::trim_start(line)).len() > 0 {
            text::trim_end(text::trim_start(line))
        } else {
            fallback
        },
        None => fallback,
    }
}

/// A user's number, as the system prints it, or what stands in for it.
pub fn uid(printed: Option<&str>, fallback: &str) -> (number: String)
    ensures
        number@ == user_number(
            match printed {
                Some(line) => Some(line@),
                None => None,
            },
            fallback@,
        ),
{
    match printed {
        Some(line) => {
            let number = text::trim(line);
            if number.as_str().is_empty() {
                fallback.to_owned()
            } else {
                number
            }
        },
        None => fallback.to_owned(),
    }
}

// ---- the Windows registry ----

/// The command that the registry starts the application with.
pub open spec fn run_command_text(executable: Seq<char>, start_minimized: bool) -> Seq<char> {
    seq!['"'] + executable + seq!['"'] + (if start_minimized {
        " --start-minimized"@
    } else {
        ""@
    })
}

/// The command that the registry starts the application with.
pub fn run_command(executable: &str, start_minimized: bool) -> (command: String)
    ensures
        command@ == run_command_text(executable@, start_minimized),
{
    let mut out = String::new();
    out.push('"');
    out.append(executable);
    out.push('"');
    if start_minimized {
        out.append(" --start-minimized");
    } else {
        out.append("");
    }
    assert(out@ =~= run_command_text(executable@, start_minimized));
    out
}

// ---- what to do ----

/// The desktop entry on Linux.
pub open spec fn entry_place(env: Environment) -> Option<Place> {
    if env.config_home {
        Some(Place { base: Base::ConfigHome, relative: "autostart/TabletFlow.desktop"@ })
    } else if env.home {
        Some(Place { base: Base::Home, relative: ".config/autostart/TabletFlow.desktop"@ })
    } else {
        None
    }
}

/// The desktop entry on Linux.
pub fn desktop_entry_path(env: Environment) -> (path: Option<Location>)
    ensures
        match path {
            Some(location) => entry_place(env) == Some(location@),
            None => entry_place(env) is None,
        },
{
    if env.config_home {
        Some(Location::new(Base::ConfigHome, "autostart/TabletFlow.desktop"))
    } else if env.home {
        Some(Location::new(Base::Home, ".config/autostart/TabletFlow.desktop"))
    } else {
        None
    }
}

/// The launch agent on macOS.
pub fn launch_agent_path(env: Environment) -> (path: Option<Location>)
    ensures
        path is Some <==> env.home,
        path matches Some(location) ==> location@ == (Place {
            base: Base::Home,
            relative: "Library/LaunchAgents/com.underweek.tabletflow.plist"@,
        }),
{
    if env.home {
        Some(Location::new(Base::Home, "Library/LaunchAgents/com.underweek.tabletflow.plist"))
    } else {
        None
    }
}

/// What to do with the file that starts the application.
#[derive(Clone, Copy, Debug, PartialEq, Eq, Structural)]
pub enum FilePlan {
    Nothing,
    Remove,
    Write,
}

/// What to do with the file that starts the application: there is a place for it, autostart
/// is wanted, and the file exists already.
pub fn configure(has_place: bool, enabled: bool, present: bool) -> (plan: FilePlan)
    ensures
        plan == if has_place && enabled {
            FilePlan::Write
        } else if has_place && present {
            FilePlan::Remove
        } else {
            FilePlan::Nothing
        },
{
    if !has_place {
        FilePlan::Nothing
    } else if enabled {
        FilePlan::Write
    } else if present {
        FilePlan::Remove
    } else {
        FilePlan::Nothing
    }
}

/// The settings that autostart depends on.
#[derive(Clone, Copy, Debug, PartialEq, Eq, Structural)]
pub struct AutostartSettings {
    pub enabled: bool,
    pub start_minimized: bool,
}

/// Whether autostart is to be configured again.
pub fn autostart_changed(last: AutostartSettings, now: AutostartSettings) -> (changed: bool)
    ensures
        changed == (last != now),
{
    last.enabled != now.enabled || last.start_minimized != now.start_minimized
}

// ---- laws ----

/// Escaping loses nothing: what two texts are escaped to tells them apart.
pub proof fn escaping_loses_nothing(a: Seq<char>, b: Seq<char>)
    ensures
        escaped(a) == escaped(b) ==> a == b,
    decreases a.len(),
{
    if escaped(a) == escaped(b) {
        escaped_length(a);
        escaped_length(b);
        if a.len() == 0 || b.len() == 0 {
            assert(a =~= b);
        } else {
            let x = a.last();
            let y = b.last();
            let p = escaped(a.drop_last());
            let q = escaped(b.drop_last());
            let e = escaped(a);
            assert(e.last() == x);
            assert(e.last() == y);
            assert(p =~= e.take(e.len() - shell_escaped(x).len()));
            assert(q =~= e.take(e.len() - shell_escaped(y).len()));
            escaping_loses_nothing(a.drop_last(), b.drop_last());
            assert(a =~= a.drop_last().push(x));
            assert(b =~= b.drop_last().push(y));
        }
    }
}

proof fn escaped_length(s: Seq<char>)
    ensures
        escaped(s).len() >= s.len(),
    decreases s.len(),
{
    if s.len() > 0 {
        escaped_length(s.drop_last());
    }
}

/// Two executables never get the same quoted argument.
pub proof fn quoting_loses_nothing(a: Seq<char>, b: Seq<char>)
    ensures
        quoted(a) == quoted(b) ==> a == b,
{
    let x = seq!['"'] + a + seq!['"'];
    let y = seq!['"'] + b + seq!['"'];
    escaping_loses_nothing(x, y);
    if quoted(a) == quoted(b) {
        assert(a =~= x.subrange(1, x.len() - 1));
        assert(b =~= y.subrange(1, y.len() - 1));
    }
}

/// Escaping works character by character: a backslash is put before a backslash, a grave accent,
/// a dollar sign and a quote, and before nothing else.
pub proof fn escapes_are_put_before_special_characters(a: Seq<char>, c: char)
    ensures
        escaped(Seq::empty()).len() == 0,
        c == '\\' || c == '`' || c == '$' || c == '"' ==> escaped(a.push(c)) == escaped(a)
            + seq!['\\', c],
        c != '\\' && c != '`' && c != '$' && c != '"' ==> escaped(a.push(c)) == escaped(a).push(c),
{
    assert(a.push(c).drop_last() =~= a);
    assert(escaped(a) + seq![c] =~= escaped(a).push(c));
}

/// Three characters have names of their own in XML, and every other one is written as it is.
pub proof fn names_are_written_for_special_characters(a: Seq<char>, c: char)
    ensures
        xml_text(Seq::empty()).len() == 0,
        c == '&' ==> xml_text(a.push(c)) == xml_text(a) + "&amp;"@,
        c == '<' ==> xml_text(a.push(c)) == xml_text(a) + "&lt;"@,
        c == '>' ==> xml_text(a.push(c)) == xml_text(a) + "&gt;"@,
        c != '&' && c != '<' && c != '>' ==> xml_text(a.push(c)) == xml_text(a).push(c),
{
    assert(a.push(c).drop_last() =~= a);
    assert(xml_text(a) + seq![c] =~= xml_text(a).push(c));
}

/// A text in XML has no angle bracket, whatever it was.
pub proof fn xml_has_no_brackets(s: Seq<char>)
    ensures
        forall|k: int|
            0 <= k < xml_text(s).len() ==> #[trigger] xml_text(s)[k] != '<' && xml_text(s)[k]
                != '>',
    decreases s.len(),
{
    if s.len() > 0 {
        let before = xml_text(s.drop_last());
        let last = xml_escaped(s.last());
        xml_has_no_brackets(s.drop_last());
        reveal_strlit("&amp;");
        reveal_strlit("&lt;");
        reveal_strlit("&gt;");
        assert forall|k: int| 0 <= k < xml_text(s).len() implies #[trigger] xml_text(s)[k] != '<'
            && xml_text(s)[k] != '>' by {
            if k < before.len() {
                assert(xml_text(s)[k] == before[k]);
            } else {
                assert(xml_text(s)[k] == last[k - before.len()]);
            }
        }
    }
}

proof fn middle_stands(a: Seq<char>, part: Seq<char>, b: Seq<char>, whole: Seq<char>)
    requires
        whole == a + part + b,
    ensures
        text::contains(whole, part),
{
    text::parts_stand_in_their_texts(a, part, b, whole);
}

/// The desktop entry has the quoted executable on its line, and the wish to start minimized where
/// there is one.
pub proof fn desktop_entries_start_the_executable(executable: Seq<char>)
    ensures
        text::contains(
            desktop_entry_text(executable, true),
            "\nExec="@ + quoted(executable) + " --start-minimized\n"@,
        ),
        text::contains(
            desktop_entry_text(executable, false),
            "\nExec="@ + quoted(executable) + "\n"@,
        ),
        text::contains(
            desktop_entry_text(executable, true),
            "\nX-GNOME-Autostart-enabled=true\n"@,
        ),
        desktop_entry_text(executable, true).take(15) == "[Desktop Entry]"@,
        quoted(executable) == seq!['\\', '"'] + escaped(executable) + seq!['\\', '"'],
{
    reveal_strlit("[Desktop Entry]\nType=Application\nName=TabletFlow\nExec=");
    reveal_strlit("[Desktop Entry]");
    reveal_strlit("\nExec=");
    reveal_strlit(" --start-minimized");
    reveal_strlit(" --start-minimized\n");
    reveal_strlit("\n");
    reveal_strlit("");
    reveal_strlit("\nX-GNOME-Autostart-enabled=true\n");
    let head = "[Desktop Entry]\nType=Application\nName=TabletFlow\nExec="@;
    let tail = "\nX-GNOME-Autostart-enabled=true\n"@;
    let q = quoted(executable);
    let n = head.len() - 6;
    assert(head =~= head.take(n) + "\nExec="@);
    assert(" --start-minimized\n"@ =~= " --start-minimized"@ + "\n"@);
    assert(tail =~= "\n"@ + tail.skip(1));
    let long = desktop_entry_text(executable, true);
    assert(long =~= head.take(n) + ("\nExec="@ + q + " --start-minimized\n"@) + tail.skip(1));
    middle_stands(head.take(n), "\nExec="@ + q + " --start-minimized\n"@, tail.skip(1), long);
    let short = desktop_entry_text(executable, false);
    assert(short =~= head.take(n) + ("\nExec="@ + q + "\n"@) + tail.skip(1));
    middle_stands(head.take(n), "\nExec="@ + q + "\n"@, tail.skip(1), short);
    assert(long =~= (head + q + " --start-minimized"@) + tail + Seq::<char>::empty());
    middle_stands(head + q + " --start-minimized"@, tail, Seq::empty(), long);
    assert(long.take(15) =~= "[Desktop Entry]"@);
    let inner = seq!['"'] + executable;
    assert(seq!['"'] + executable + seq!['"'] =~= inner.push('"'));
    escapes_are_put_before_special_characters(inner, '"');
    escapes_join(seq!['"'], executable);
    assert(seq!['"'] =~= Seq::<char>::empty().push('"'));
    escapes_are_put_before_special_characters(Seq::empty(), '"');
    assert(escaped(seq!['"']) =~= seq!['\\', '"']);
}

proof fn escapes_join(a: Seq<char>, b: Seq<char>)
    ensures
        escaped(a + b) == escaped(a) + escaped(b),
    decreases b.len(),
{
    if b.len() == 0 {
        assert(a + b =~= a);
        assert(escaped(a) + escaped(b) =~= escaped(a));
    } else {
        assert((a + b).drop_last() =~= a + b.drop_last());
        escapes_join(a, b.drop_last());
        assert(escaped(a + b) =~= escaped(a) + escaped(b));
    }
}

/// The launch agent has the executable as its first argument, and the wish to start minimized as
/// its second where there is one.
pub proof fn launch_agents_start_the_executable(executable: Seq<char>)
    ensures
        text::contains(
            launch_agent_text(executable, true),
            "<array><string>"@ + xml_text(executable)
                + "</string><string>--start-minimized</string></array>"@,
        ),
        text::contains(
            launch_agent_text(executable, false),
            "<array><string>"@ + xml_text(executable) + "</string></array>"@,
        ),
{
    reveal_strlit(
        "<?xml version=\"1.0\" encoding=\"UTF-8\"?><!DOCTYPE plist PUBLIC \"-//Apple//DTD PLIST 1.0//EN\" \"http://www.apple.com/DTDs/PropertyList-1.0.dtd\"><plist version=\"1.0\"><dict><key>Label</key><string>com.underweek.tabletflow</string><key>ProgramArguments</key><array><string>",
    );
    reveal_strlit("<array><string>");
    reveal_strlit("</string>");
    reveal_strlit("<string>--start-minimized</string>");
    reveal_strlit("</string><string>--start-minimized</string></array>");
    reveal_strlit("</string></array>");
    reveal_strlit("</array><key>RunAtLoad</key><true/></dict></plist>");
    reveal_strlit("");
    let head =
        "<?xml version=\"1.0\" encoding=\"UTF-8\"?><!DOCTYPE plist PUBLIC \"-//Apple//DTD PLIST 1.0//EN\" \"http://www.apple.com/DTDs/PropertyList-1.0.dtd\"><plist version=\"1.0\"><dict><key>Label</key><string>com.underweek.tabletflow</string><key>ProgramArguments</key><array><string>"@;
    let tail = "</array><key>RunAtLoad</key><true/></dict></plist>"@;
    let x = xml_text(executable);
    let n = head.len() - 15;
    assert(head =~= head.take(n) + "<array><string>"@);
    let long = launch_agent_text(executable, true);
    let short = launch_agent_text(executable, false);
    let two = "</string><string>--start-minimized</string></array>"@;
    let one = "</string></array>"@;
    assert("</string>"@ + "<string>--start-minimized</string>"@ + tail =~= two + tail.skip(8));
    assert("</string>"@ + ""@ + tail =~= one + tail.skip(8));
    assert(long =~= head.take(n) + ("<array><string>"@ + x + two) + tail.skip(8));
    middle_stands(head.take(n), "<array><string>"@ + x + two, tail.skip(8), long);
    assert(short =~= head.take(n) + ("<array><string>"@ + x + one) + tail.skip(8));
    middle_stands(head.take(n), "<array><string>"@ + x + one, tail.skip(8), short);
}

/// The command of the registry is the executable in quotes, with the wish to start minimized
/// behind it where there is one.
pub proof fn registry_commands_start_the_executable(executable: Seq<char>)
    ensures
        run_command_text(executable, false).len() == executable.len() + 2,
        run_command_text(executable, false)[0] == '"',
        run_command_text(executable, false).last() == '"',
        run_command_text(executable, false).subrange(1, executable.len() as int + 1) == executable,
        run_command_text(executable, true) == run_command_text(executable, false)
            + " --start-minimized"@,
{
    reveal_strlit("");
    reveal_strlit(" --start-minimized");
    assert(run_command_text(executable, false).subrange(1, executable.len() as int + 1) =~= executable);
    assert(run_command_text(executable, true) =~= run_command_text(executable, false)
        + " --start-minimized"@);
}

/// A user's number is what the system prints, without the white space around it; where there is
/// nothing else, it is what stands in for it.
pub proof fn printed_numbers_are_trimmed(
    a: Seq<char>,
    number: Seq<char>,
    b: Seq<char>,
    fallback: Seq<char>,
)
    requires
        forall|k: int| 0 <= k < a.len() ==> text::is_space(#[trigger] a[k]),
        forall|k: int| 0 <= k < b.len() ==> text::is_space(#[trigger] b[k]),
    ensures
        number.len() > 0 && !text::is_space(number[0]) && !text::is_space(number.last())
            ==> user_number(Some(a + number + b), fallback) == number,
        number.len() == 0 ==> user_number(Some(a + number + b), fallback) == fallback,
        user_number(None, fallback) == fallback,
{
    text::trimming_takes_white_space(a, number, b);
}

/// The desktop entry is in a directory that the environment gives.
pub proof fn entries_are_in_given_directories(env: Environment)
    ensures
        env.config_home ==> (entry_place(env) matches Some(place) && place.base == Base::ConfigHome
            && place.relative == "autostart/TabletFlow.desktop"@),
        !env.config_home && env.home ==> (entry_place(env) matches Some(place) && place.base
            == Base::Home && place.relative == ".config/autostart/TabletFlow.desktop"@),
        entry_place(env) is None <==> !env.config_home && !env.home,
{
}

/// The launch agent on lines of its own says the same: the executable first, then the wish to start
/// minimized where there is one. Both forms are for this application and start it at every login.
pub proof fn launch_agents_on_lines_start_the_executable(executable: Seq<char>, minimized: bool)
    ensures
        text::contains(
            launch_agent_lines(executable, true),
            "<array>\n            <string>"@ + xml_text(executable)
                + "</string>\n            <string>--start-minimized</string>\n</array>\n"@,
        ),
        text::contains(
            launch_agent_lines(executable, false),
            "<array>\n            <string>"@ + xml_text(executable) + "</string>\n</array>\n"@,
        ),
        text::contains(
            launch_agent_lines(executable, minimized),
            "<key>RunAtLoad</key><true/>"@,
        ),
        text::contains(launch_agent_text(executable, minimized), "<key>RunAtLoad</key><true/>"@),
        text::contains(
            launch_agent_lines(executable, minimized),
            "<key>Label</key><string>com.underweek.tabletflow</string>"@,
        ),
        text::contains(
            launch_agent_text(executable, minimized),
            "<key>Label</key><string>com.underweek.tabletflow</string>"@,
        ),
{
    let head =
        "<?xml version=\"1.0\" encoding=\"UTF-8\"?>\n<!DOCTYPE plist PUBLIC \"-//Apple//DTD PLIST 1.0//EN\" \"http://www.apple.com/DTDs/PropertyList-1.0.dtd\">\n<plist version=\"1.0\"><dict>\n<key>Label</key><string>com.underweek.tabletflow</string>\n<key>ProgramArguments</key><array>\n            <string>"@;
    let tail = "</array>\n<key>RunAtLoad</key><true/>\n</dict></plist>\n"@;
    lines_are_parted();
    let x = xml_text(executable);
    let start = "<array>\n            <string>"@;
    let n = head.len() - 28;
    let two = "</string>\n            <string>--start-minimized</string>\n</array>\n"@;
    let one = "</string>\n</array>\n"@;
    let long = launch_agent_lines(executable, true);
    let short = launch_agent_lines(executable, false);
    let wish = "            <string>--start-minimized</string>\n"@;
    assert(long =~= (head + x) + ("</string>\n"@ + wish + tail));
    assert(((head.take(n) + start) + x) + (two + tail.skip(9)) =~= head.take(n) + (start + x + two)
        + tail.skip(9));
    middle_stands(head.take(n), start + x + two, tail.skip(9), long);
    assert(short =~= (head + x) + ("</string>\n"@ + ""@ + tail));
    assert(((head.take(n) + start) + x) + (one + tail.skip(9)) =~= head.take(n) + (start + x + one)
        + tail.skip(9));
    middle_stands(head.take(n), start + x + one, tail.skip(9), short);
    let run = "<key>RunAtLoad</key><true/>"@;
    let label = "<key>Label</key><string>com.underweek.tabletflow</string>"@;
    let whole = launch_agent_lines(executable, minimized);
    let before = whole.take(whole.len() - tail.len());
    assert(whole =~= before + tail);
    assert(whole =~= (before + tail.take(9)) + run + tail.skip(36));
    middle_stands(before + tail.take(9), run, tail.skip(36), whole);
    let k = label_place_on_lines();
    let after = whole.skip(head.len() as int);
    assert(whole =~= head + after);
    assert(whole =~= head.take(k) + label + (head.skip(k + label.len()) + after));
    middle_stands(head.take(k), label, head.skip(k + label.len()) + after, whole);
    agents_run_at_load(executable, minimized);
}

proof fn lines_are_parted()
    ensures
        ({
            let head =
                "<?xml version=\"1.0\" encoding=\"UTF-8\"?>\n<!DOCTYPE plist PUBLIC \"-//Apple//DTD PLIST 1.0//EN\" \"http://www.apple.com/DTDs/PropertyList-1.0.dtd\">\n<plist version=\"1.0\"><dict>\n<key>Label</key><string>com.underweek.tabletflow</string>\n<key>ProgramArguments</key><array>\n            <string>"@;
            let tail = "</array>\n<key>RunAtLoad</key><true/>\n</dict></plist>\n"@;
            &&& head.len() >= 28
            &&& head == head.take(head.len() - 28) + "<array>\n            <string>"@
            &&& tail.len() >= 36
            &&& tail == tail.take(9) + "<key>RunAtLoad</key><true/>"@ + tail.skip(36)
            &&& "</string>\n"@ + "            <string>--start-minimized</string>\n"@ + tail
                == "</string>\n            <string>--start-minimized</string>\n</array>\n"@ + tail.skip(
                9,
            )
            &&& "</string>\n"@ + ""@ + tail == "</string>\n</array>\n"@ + tail.skip(9)
        }),
{
    reveal_strlit(
        "<?xml version=\"1.0\" encoding=\"UTF-8\"?>\n<!DOCTYPE plist PUBLIC \"-//Apple//DTD PLIST 1.0//EN\" \"http://www.apple.com/DTDs/PropertyList-1.0.dtd\">\n<plist version=\"1.0\"><dict>\n<key>Label</key><string>com.underweek.tabletflow</string>\n<key>ProgramArguments</key><array>\n            <string>",
    );
    reveal_strlit("</array>\n<key>RunAtLoad</key><true/>\n</dict></plist>\n");
    reveal_strlit("<array>\n            <string>");
    reveal_strlit("<key>RunAtLoad</key><true/>");
    reveal_strlit("</string>\n");
    reveal_strlit("");
    reveal_strlit("            <string>--start-minimized</string>\n");
    reveal_strlit("</string>\n            <string>--start-minimized</string>\n</array>\n");
    reveal_strlit("</string>\n</array>\n");
    let head =
        "<?xml version=\"1.0\" encoding=\"UTF-8\"?>\n<!DOCTYPE plist PUBLIC \"-//Apple//DTD PLIST 1.0//EN\" \"http://www.apple.com/DTDs/PropertyList-1.0.dtd\">\n<plist version=\"1.0\"><dict>\n<key>Label</key><string>com.underweek.tabletflow</string>\n<key>ProgramArguments</key><array>\n            <string>"@;
    let tail = "</array>\n<key>RunAtLoad</key><true/>\n</dict></plist>\n"@;
    assert(head =~= head.take(head.len() - 28) + "<array>\n            <string>"@);
    assert(tail =~= tail.take(9) + "<key>RunAtLoad</key><true/>"@ + tail.skip(36));
    assert("</string>\n"@ + "            <string>--start-minimized</string>\n"@ + tail
        =~= "</string>\n            <string>--start-minimized</string>\n</array>\n"@ + tail.skip(9));
    assert("</string>\n"@ + ""@ + tail =~= "</string>\n</array>\n"@ + tail.skip(9));
}

proof fn label_place_on_lines() -> (k: int)
    ensures
        ({
            let head =
                "<?xml version=\"1.0\" encoding=\"UTF-8\"?>\n<!DOCTYPE plist PUBLIC \"-//Apple//DTD PLIST 1.0//EN\" \"http://www.apple.com/DTDs/PropertyList-1.0.dtd\">\n<plist version=\"1.0\"><dict>\n<key>Label</key><string>com.underweek.tabletflow</string>\n<key>ProgramArguments</key><array>\n            <string>"@;
            let label = "<key>Label</key><string>com.underweek.tabletflow</string>"@;
            &&& 0 <= k <= head.len() - label.len()
            &&& head == head.take(k) + label + head.skip(k + label.len())
        }),
{
    reveal_strlit(
        "<?xml version=\"1.0\" encoding=\"UTF-8\"?>\n<!DOCTYPE plist PUBLIC \"-//Apple//DTD PLIST 1.0//EN\" \"http://www.apple.com/DTDs/PropertyList-1.0.dtd\">\n<plist version=\"1.0\"><dict>\n<key>Label</key><string>com.underweek.tabletflow</string>\n<key>ProgramArguments</key><array>\n            <string>",
    );
    reveal_strlit("<key>Label</key><string>com.underweek.tabletflow</string>");
    let head =
        "<?xml version=\"1.0\" encoding=\"UTF-8\"?>\n<!DOCTYPE plist PUBLIC \"-//Apple//DTD PLIST 1.0//EN\" \"http://www.apple.com/DTDs/PropertyList-1.0.dtd\">\n<plist version=\"1.0\"><dict>\n<key>Label</key><string>com.underweek.tabletflow</string>\n<key>ProgramArguments</key><array>\n            <string>"@;
    let label = "<key>Label</key><string>com.underweek.tabletflow</string>"@;
    let k = 170int;
    assert(head =~= head.take(k) + label + head.skip(k + label.len()));
    k
}

proof fn agents_run_at_load(executable: Seq<char>, minimized: bool)
    ensures
        text::contains(launch_agent_text(executable, minimized), "<key>RunAtLoad</key><true/>"@),
        text::contains(
            launch_agent_text(executable, minimized),
            "<key>Label</key><string>com.underweek.tabletflow</string>"@,
        ),
{
    reveal_strlit(
        "<?xml version=\"1.0\" encoding=\"UTF-8\"?><!DOCTYPE plist PUBLIC \"-//Apple//DTD PLIST 1.0//EN\" \"http://www.apple.com/DTDs/PropertyList-1.0.dtd\"><plist version=\"1.0\"><dict><key>Label</key><string>com.underweek.tabletflow</string><key>ProgramArguments</key><array><string>",
    );
    reveal_strlit("</array><key>RunAtLoad</key><true/></dict></plist>");
    reveal_strlit("<key>RunAtLoad</key><true/>");
    reveal_strlit("<key>Label</key><string>com.underweek.tabletflow</string>");
    let head =
        "<?xml version=\"1.0\" encoding=\"UTF-8\"?><!DOCTYPE plist PUBLIC \"-//Apple//DTD PLIST 1.0//EN\" \"http://www.apple.com/DTDs/PropertyList-1.0.dtd\"><plist version=\"1.0\"><dict><key>Label</key><string>com.underweek.tabletflow</string><key>ProgramArguments</key><array><string>"@;
    let tail = "</array><key>RunAtLoad</key><true/></dict></plist>"@;
    let run = "<key>RunAtLoad</key><true/>"@;
    let label = "<key>Label</key><string>com.underweek.tabletflow</string>"@;
    let whole = launch_agent_text(executable, minimized);
    let before = whole.take(whole.len() - tail.len());
    assert(whole =~= before + tail);
    assert(tail =~= tail.take(8) + run + tail.skip(35));
    assert(whole =~= (before + tail.take(8)) + run + tail.skip(35));
    middle_stands(before + tail.take(8), run, tail.skip(35), whole);
    let k = 167int;
    assert(head =~= head.take(k) + label + head.skip(k + label.len()));
    let after = whole.skip(head.len() as int);
    assert(whole =~= head + after);
    assert(whole =~= head.take(k) + label + (head.skip(k + label.len()) + after));
    middle_stands(head.take(k), label, head.skip(k + label.len()) + after, whole);
}

} // verus!
