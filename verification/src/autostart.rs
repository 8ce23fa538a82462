//! Starting the program with the session of the user.

use vstd::prelude::*;
use vstd::string::*;

use crate::setup::{absolute_path, replaced};
use crate::text::{chars_of, joined, text_of, Text};

verus! {

/// The name under which the program is registered.
pub const APP_NAME: &'static str = "Salmon Watch";

/// What comes of resolving the path of a configuration: the path as it was resolved, or the words
/// for why it was not, after what was attempted.
pub fn config_path_outcome(resolved: Result<String, String>) -> (outcome: Result<String, String>)
    ensures
        outcome is Ok <==> resolved is Ok,
        outcome matches Ok(path) ==> path@ == resolved->Ok_0@,
        outcome matches Err(words) ==> words@ == "resolve autostart config path: "@
            + resolved->Err_0@,
{
    match resolved {
        Ok(path) => Ok(path),
        Err(words) => Err(joined("resolve autostart config path: ", words.as_str())),
    }
}

/// Resolves the path of a configuration. Whether a path that is not empty can be resolved is left
/// to the operating system.
pub fn absolute_config_path(config_path: &str) -> (outcome: Result<String, String>)
    ensures
        config_path@.len() == 0 ==> outcome is Err,
        outcome matches Ok(path) ==> path@.len() > 0,
        outcome matches Err(words) ==> "resolve autostart config path: "@.is_prefix_of(words@),
{
    config_path_outcome(absolute_path(config_path))
}

/// The command in the Windows registry.
pub open spec fn registry_words(executable: Text, config: Text, is_default: bool) -> Text {
    if is_default {
        "\""@ + executable + "\""@
    } else {
        "\""@ + executable + "\" --config \""@ + config + "\""@
    }
}

/// The command in the Windows registry. The default configuration need not be named.
pub fn registry_value(executable: &str, config: &str, is_default: bool) -> (value: String)
    ensures
        value@ == registry_words(executable@, config@, is_default),
{
    if is_default {
        joined("\"", executable).concat("\"")
    } else {
        joined("\"", executable).concat("\" --config \"").concat(config).concat("\"")
    }
}

/// A character, as it stands in XML.
pub open spec fn xml_char(ch: char) -> Text {
    if ch == '&' {
        "&amp;"@
    } else if ch == '<' {
        "&lt;"@
    } else if ch == '>' {
        "&gt;"@
    } else if ch == '"' {
        "&quot;"@
    } else if ch == '\'' {
        "&apos;"@
    } else {
        seq![ch]
    }
}

/// A text, as it stands in XML.
pub open spec fn xml_text(value: Text) -> Text {
    replaced(value, |ch: char| xml_char(ch))
}

fn append(output: &mut Vec<char>, text: &str)
    ensures
        final(output)@ == old(output)@ + text@,
{
    let chars = chars_of(text);
    let mut i: usize = 0;
    while i < chars.len()
        invariant
            chars@ == text@,
            i <= chars.len(),
            output@ == old(output)@ + text@.take(i as int),
        decreases chars.len() - i,
    {
        output.push(chars[i]);
        assert(output@ =~= old(output)@ + text@.take(i + 1));
        i += 1;
    }
    assert(text@.take(i as int) =~= text@);
}

/// A text, as it stands in XML.
pub fn plist_xml_text(value: &str) -> (text: String)
    ensures
        text@ == xml_text(value@),
{
    let chars = chars_of(value);
    let ghost map = |ch: char| xml_char(ch);
    let mut output: Vec<char> = Vec::new();
    let mut i: usize = 0;
    assert(output@ =~= replaced(chars@.take(0), map));
    while i < chars.len()
        invariant
            i <= chars.len(),
            map == (|ch: char| xml_char(ch)),
            output@ == replaced(chars@.take(i as int), map),
        decreases chars.len() - i,
    {
        let ch: char = chars[i];
        let ghost before = output@;
        if ch == '&' {
            append(&mut output, "&amp;");
        } else if ch == '<' {
            append(&mut output, "&lt;");
        } else if ch == '>' {
            append(&mut output, "&gt;");
        } else if ch == '"' {
            append(&mut output, "&quot;");
        } else if ch == '\'' {
            append(&mut output, "&apos;");
        } else {
            output.push(ch);
        }
        assert(output@ =~= before + xml_char(ch));
        assert(chars@.take(i + 1).drop_last() =~= chars@.take(i as int));
        i += 1;
    }
    assert(chars@.take(i as int) =~= chars@);
    text_of(output.as_slice())
}

/// The arguments of the program in a macOS launch agent.
pub open spec fn agent_arguments(executable: Text, config: Text, is_default: bool) -> Text {
    let program = "        <string>"@ + xml_text(executable) + "</string>"@;
    if is_default {
        program
    } else {
        program + "\n        <string>--config</string>\n        <string>"@ + xml_text(config)
            + "</string>"@
    }
}

/// A macOS launch agent that starts the program.
pub open spec fn agent_words(executable: Text, config: Text, is_default: bool) -> Text {
    "<?xml version=\"1.0\" encoding=\"UTF-8\"?>\n<!DOCTYPE plist PUBLIC \"-//Apple//DTD PLIST 1.0//EN\" \"http://www.apple.com/DTDs/PropertyList-1.0.dtd\">\n<plist version=\"1.0\">\n<dict>\n    <key>Label</key>\n    <string>com.dimonomid.salmon-watch</string>\n    <key>ProgramArguments</key>\n    <array>\n"@
        + agent_arguments(executable, config, is_default)
        + "\n    </array>\n    <key>RunAtLoad</key>\n    <true/>\n</dict>\n</plist>\n"@
}

/// A macOS launch agent that starts the program. The default configuration need not be named.
pub fn launch_agent(executable: &str, config: &str, is_default: bool) -> (plist: String)
    ensures
        plist@ == agent_words(executable@, config@, is_default),
{
    let program = plist_xml_text(executable);
    let mut arguments = joined("        <string>", program.as_str()).concat("</string>");
    if !is_default {
        let config_text = plist_xml_text(config);
        arguments =
        arguments.concat("\n        <string>--config</string>\n        <string>").concat(
            config_text.as_str(),
        ).concat("</string>");
    }
    joined(
        "<?xml version=\"1.0\" encoding=\"UTF-8\"?>\n<!DOCTYPE plist PUBLIC \"-//Apple//DTD PLIST 1.0//EN\" \"http://www.apple.com/DTDs/PropertyList-1.0.dtd\">\n<plist version=\"1.0\">\n<dict>\n    <key>Label</key>\n    <string>com.dimonomid.salmon-watch</string>\n    <key>ProgramArguments</key>\n    <array>\n",
        arguments.as_str(),
    ).concat("\n    </array>\n    <key>RunAtLoad</key>\n    <true/>\n</dict>\n</plist>\n")
}

// ---------------------------------------------------------------------------------------------
// Laws
// ---------------------------------------------------------------------------------------------

/// A text in XML holds none of the characters that have a meaning there, but for the ampersands
/// that start the names of such characters.
pub proof fn xml_text_holds_no_markup(value: Text)
    ensures
        !xml_text(value).contains('<'),
        !xml_text(value).contains('>'),
        !xml_text(value).contains('"'),
        !xml_text(value).contains('\''),
    decreases value.len(),
{
    let map = |ch: char| xml_char(ch);
    if value.len() > 0 {
        xml_text_holds_no_markup(value.drop_last());
        let last = value.last();
        reveal_strlit("&amp;");
        reveal_strlit("&lt;");
        reveal_strlit("&gt;");
        reveal_strlit("&quot;");
        reveal_strlit("&apos;");
        let front = xml_text(value.drop_last());
        let end = xml_char(last);
        assert(xml_text(value) == front + end);
        assert forall|i: int| 0 <= i < (front + end).len() implies {
            let ch = #[trigger] (front + end)[i];
            ch != '<' && ch != '>' && ch != '"' && ch != '\''
        } by {
            if i < front.len() {
                assert((front + end)[i] == front[i]);
                assert(front.contains(front[i]));
            } else {
                assert((front + end)[i] == end[i - front.len()]);
            }
        }
    }
}

/// Texts without such characters stand in XML as they are, each such character stands there by its
/// name, and what stands for a text is what stands for its parts.
pub proof fn xml_text_stands_for_its_characters(front: Text, ch: char)
    ensures
        xml_text(front.push(ch)) == xml_text(front) + (if ch == '&' {
            "&amp;"@
        } else if ch == '<' {
            "&lt;"@
        } else if ch == '>' {
            "&gt;"@
        } else if ch == '"' {
            "&quot;"@
        } else if ch == '\'' {
            "&apos;"@
        } else {
            seq![ch]
        }),
        xml_text(Seq::empty()).len() == 0,
{
    assert(front.push(ch).drop_last() =~= front);
}

/// The command in the Windows registry runs the executable, quoted, with the path of the
/// configuration, quoted, only where it is not the default one.
pub proof fn registered_commands_name_the_program(executable: Text, config: Text)
    ensures
        registry_words(executable, config, true) == seq!['"'] + executable + seq!['"'],
        registry_words(executable, config, false) == registry_words(executable, config, true)
            + " --config "@ + seq!['"'] + config + seq!['"'],
{
    reveal_strlit("\"");
    reveal_strlit("\" --config \"");
    reveal_strlit(" --config ");
    assert(registry_words(executable, config, true) =~= seq!['"'] + executable + seq!['"']);
    assert(registry_words(executable, config, false) =~= registry_words(executable, config, true)
        + " --config "@ + seq!['"'] + config + seq!['"']);
}

/// A launch agent names the executable, and the configuration only where it is not the default
/// one: each as an entry of its own.
pub proof fn launch_agents_name_the_program(executable: Text, config: Text)
    ensures
        agent_arguments(executable, config, true) == "        <string>"@ + xml_text(executable)
            + "</string>"@,
        agent_arguments(executable, config, false) == agent_arguments(executable, config, true)
            + "\n"@ + agent_arguments("--config"@, config, true) + "\n"@ + agent_arguments(
            config,
            config,
            true,
        ),
{
    reveal_strlit("        <string>");
    reveal_strlit("</string>");
    reveal_strlit("\n");
    reveal_strlit("--config");
    reveal_strlit("\n        <string>--config</string>\n        <string>");
    lemma_plain_text("--config"@);
    assert(agent_arguments(executable, config, false) =~= agent_arguments(executable, config, true)
        + "\n"@ + agent_arguments("--config"@, config, true) + "\n"@ + agent_arguments(
        config,
        config,
        true,
    ));
}

proof fn lemma_plain_text(value: Text)
    requires
        forall|i: int| 0 <= i < value.len() ==> xml_char(#[trigger] value[i]) == seq![value[i]],
    ensures
        xml_text(value) == value,
    decreases value.len(),
{
    if value.len() > 0 {
        let front = value.drop_last();
        lemma_plain_text(front);
        assert(value[value.len() - 1] == value.last());
        assert(xml_text(value) =~= front.push(value.last()));
    }
    assert(xml_text(value) =~= value);
}

} // verus!
