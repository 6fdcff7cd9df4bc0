//! The message that is shown when the program has crashed.

use vstd::prelude::*;

verus! {

/// The message for a crash whose report was written to the file at `path`.
pub open spec fn crash_message(path: Seq<char>) -> Seq<char> {
    "Well, this is embarrassing.\n\n"@
        + "automancy had a problem and crashed. To help us diagnose the problem you can send us a crash report.\n\n"@
        + "We have generated a report file at\nfile://"@ + path
        + "\n\nSubmit an issue or tag us on Fedi/Discord and include the report as an attachment.\n\n"@
        + "- Git: https://github.com/automancy/automancy\n"@
        + "- Fedi(Mastodon): https://gamedev.lgbt/@automancy\n"@
        + "- Discord: https://discord.gg/ee9XebxNaa\n"@
        + "\nAlternatively, send an email to the main developer Madeline Sparkles (madeline@mouse.lgbt) directly.\n\n"@
        + "We take privacy seriously, and do not perform any automated error collection. In order to improve the software, we rely on people to submit reports.\n\n"@
        + "Thank you kindly!\n"@
}

/// Writes the message for a crash whose report was written to the file at
/// `file_path` behind `buffer`.
pub fn write_msg(buffer: &mut String, file_path: &str)
    ensures
        final(buffer)@ == old(buffer)@ + crash_message(file_path@),
{
    buffer.append("Well, this is embarrassing.\n\n");
    buffer.append(
        "automancy had a problem and crashed. To help us diagnose the problem you can send us a crash report.\n\n",
    );
    buffer.append("We have generated a report file at\nfile://");
    buffer.append(file_path);
    buffer.append(
        "\n\nSubmit an issue or tag us on Fedi/Discord and include the report as an attachment.\n\n",
    );
    buffer.append("- Git: https://github.com/automancy/automancy\n");
    buffer.append("- Fedi(Mastodon): https://gamedev.lgbt/@automancy\n");
    buffer.append("- Discord: https://discord.gg/ee9XebxNaa\n");
    buffer.append(
        "\nAlternatively, send an email to the main developer Madeline Sparkles (madeline@mouse.lgbt) directly.\n\n",
    );
    buffer.append(
        "We take privacy seriously, and do not perform any automated error collection. In order to improve the software, we rely on people to submit reports.\n\n",
    );
    buffer.append("Thank you kindly!\n");
    assert(buffer@ =~= old(buffer)@ + crash_message(file_path@));
}

} // verus!
