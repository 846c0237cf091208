//! The layout of the translator's help pages: each line is a fixed lead
//! followed by a localized message, or an empty line.
use vstd::prelude::*;
use crate::workflow::HelpTarget;

verus! {

/// One line of a help page: the lead text, then the localized message of
/// `message_key` if any.
#[derive(Debug, Clone, PartialEq, Eq)]
pub struct HelpLine {
    pub lead: &'static str,
    pub message_key: Option<&'static str>,
}

/// A line as plain texts.
pub open spec fn line_view(line: HelpLine) -> (Seq<char>, Option<Seq<char>>) {
    (line.lead@, match line.message_key {
        Some(k) => Some(k@),
        None => None,
    })
}

/// Lines as plain texts.
pub open spec fn lines_view(lines: Seq<HelpLine>) -> Seq<(Seq<char>, Option<Seq<char>>)> {
    Seq::new(lines.len(), |i: int| line_view(lines[i]))
}

/// A line that is only a message.
pub open spec fn msg(key: Seq<char>) -> (Seq<char>, Option<Seq<char>>) {
    (Seq::empty(), Some(key))
}

/// An empty line.
pub open spec fn blank() -> (Seq<char>, Option<Seq<char>>) {
    (Seq::empty(), None)
}

/// A line with a lead and a message.
pub open spec fn row(lead: Seq<char>, key: Seq<char>) -> (Seq<char>, Option<Seq<char>>) {
    (lead, Some(key))
}

/// The closing rows every command page shares: the locale and help options.
pub open spec fn common_options(pad: Seq<char>) -> Seq<(Seq<char>, Option<Seq<char>>)> {
    seq![
        row("      --locale <LOCALE>  "@ + pad, "cli.help.option.locale"@),
        row("  -h, --help             "@ + pad, "cli.help.option.help"@),
    ]
}

/// The lines of each help page.
pub open spec fn help_layout(target: HelpTarget) -> Seq<(Seq<char>, Option<Seq<char>>)> {
    match target {
        HelpTarget::TopLevel => seq![
            msg("cli.help.top.title"@),
            blank(),
            msg("cli.help.top.usage"@),
            blank(),
            msg("cli.help.top.commands"@),
            row("  diff       "@, "cli.help.command.diff"@),
            row("  validate   "@, "cli.help.command.validate"@),
            row("  status     "@, "cli.help.command.status"@),
            row("  translate  "@, "cli.help.command.translate"@),
            row("  help       "@, "cli.help.command.help"@),
            blank(),
            msg("cli.help.top.options"@),
        ] + common_options(Seq::empty()),
        HelpTarget::Diff => seq![
            msg("cli.help.command.diff"@),
            blank(),
            msg("cli.help.diff.usage"@),
            blank(),
            msg("cli.help.diff.options"@),
            row("      --base <BASE>      "@, "cli.help.diff.option.base"@),
            row("      --head <HEAD>      "@, "cli.help.diff.option.head"@),
            row("      --en <EN>          "@, "cli.help.diff.option.en"@),
        ] + common_options(Seq::empty()),
        HelpTarget::Validate => seq![
            msg("cli.help.command.validate"@),
            blank(),
            msg("cli.help.validate.usage"@),
            blank(),
            msg("cli.help.validate.options"@),
            row("      --langs <LANGS>    "@, "cli.help.validate.option.langs"@),
            row("      --en <EN>          "@, "cli.help.validate.option.en"@),
        ] + common_options(Seq::empty()),
        HelpTarget::Status => seq![
            msg("cli.help.command.status"@),
            blank(),
            msg("cli.help.status.usage"@),
            blank(),
            msg("cli.help.status.options"@),
            row("      --langs <LANGS>    "@, "cli.help.status.option.langs"@),
            row("      --en <EN>          "@, "cli.help.status.option.en"@),
        ] + common_options(Seq::empty()),
        HelpTarget::Translate => seq![
            msg("cli.help.command.translate"@),
            blank(),
            msg("cli.help.translate.usage"@),
            blank(),
            msg("cli.help.translate.options"@),
            row("      --langs <LANGS>            "@, "cli.help.translate.option.langs"@),
            row("      --en <EN>                  "@, "cli.help.translate.option.en"@),
            row("      --auth-mode <AUTH_MODE>    "@, "cli.help.translate.option.auth_mode"@),
            row("      --codex-home <CODEX_HOME>  "@, "cli.help.translate.option.codex_home"@),
            row("      --batch-size <BATCH_SIZE>  "@, "cli.help.translate.option.batch_size"@),
            row("      --max-retries <MAX_RETRIES> "@, "cli.help.translate.option.max_retries"@),
            row("      --glossary <GLOSSARY>      "@, "cli.help.translate.option.glossary"@),
            row("      --api-key-stdin            "@, "cli.help.translate.option.api_key_stdin"@),
            row("      --overwrite-manual         "@, "cli.help.translate.option.overwrite_manual"@),
            row("      --cache-dir <CACHE_DIR>    "@, "cli.help.translate.option.cache_dir"@),
            row("      --locale <LOCALE>          "@, "cli.help.option.locale"@),
            row("  -h, --help                     "@, "cli.help.option.help"@),
        ],
    }
}

fn push_msg(lines: &mut Vec<HelpLine>, key: &'static str)
    ensures
        lines_view(final(lines)@) == lines_view(old(lines)@).push(msg(key@)),
{
    let ghost before = lines@;
    lines.push(HelpLine { lead: "", message_key: Some(key) });
    proof {
        reveal_strlit("");
        assert(""@ =~= Seq::<char>::empty());
    }
    assert(lines_view(lines@) =~= lines_view(before).push(msg(key@)));
}

fn push_blank(lines: &mut Vec<HelpLine>)
    ensures
        lines_view(final(lines)@) == lines_view(old(lines)@).push(blank()),
{
    let ghost before = lines@;
    lines.push(HelpLine { lead: "", message_key: None });
    proof {
        reveal_strlit("");
        assert(""@ =~= Seq::<char>::empty());
    }
    assert(lines_view(lines@) =~= lines_view(before).push(blank()));
}

fn push_row(lines: &mut Vec<HelpLine>, lead: &'static str, key: &'static str)
    ensures
        lines_view(final(lines)@) == lines_view(old(lines)@).push(row(lead@, key@)),
{
    let ghost before = lines@;
    lines.push(HelpLine { lead, message_key: Some(key) });
    assert(lines_view(lines@) =~= lines_view(before).push(row(lead@, key@)));
}

fn push_common_options(lines: &mut Vec<HelpLine>)
    ensures
        lines_view(final(lines)@) == lines_view(old(lines)@) + common_options(Seq::empty()),
{
    let ghost before = lines_view(lines@);
    push_row(lines, "      --locale <LOCALE>  ", "cli.help.option.locale");
    push_row(lines, "  -h, --help             ", "cli.help.option.help");
    assert("      --locale <LOCALE>  "@ + Seq::<char>::empty() =~= "      --locale <LOCALE>  "@);
    assert("  -h, --help             "@ + Seq::<char>::empty() =~= "  -h, --help             "@);
    assert(lines_view(lines@) =~= before + common_options(Seq::empty()));
}

/// The lines of the help page for `target`.
pub fn help_lines(target: HelpTarget) -> (lines: Vec<HelpLine>)
    ensures
        lines_view(lines@) == help_layout(target),
{
    let mut lines: Vec<HelpLine> = Vec::new();
    assert(lines_view(lines@) =~= Seq::<(Seq<char>, Option<Seq<char>>)>::empty());
    match target {
        HelpTarget::TopLevel => {
            push_msg(&mut lines, "cli.help.top.title");
            push_blank(&mut lines);
            push_msg(&mut lines, "cli.help.top.usage");
            push_blank(&mut lines);
            push_msg(&mut lines, "cli.help.top.commands");
            push_row(&mut lines, "  diff       ", "cli.help.command.diff");
            push_row(&mut lines, "  validate   ", "cli.help.command.validate");
            push_row(&mut lines, "  status     ", "cli.help.command.status");
            push_row(&mut lines, "  translate  ", "cli.help.command.translate");
            push_row(&mut lines, "  help       ", "cli.help.command.help");
            push_blank(&mut lines);
            push_msg(&mut lines, "cli.help.top.options");
            push_common_options(&mut lines);
        },
        HelpTarget::Diff => {
            push_msg(&mut lines, "cli.help.command.diff");
            push_blank(&mut lines);
            push_msg(&mut lines, "cli.help.diff.usage");
            push_blank(&mut lines);
            push_msg(&mut lines, "cli.help.diff.options");
            push_row(&mut lines, "      --base <BASE>      ", "cli.help.diff.option.base");
            push_row(&mut lines, "      --head <HEAD>      ", "cli.help.diff.option.head");
            push_row(&mut lines, "      --en <EN>          ", "cli.help.diff.option.en");
            push_common_options(&mut lines);
        },
        HelpTarget::Validate => {
            push_msg(&mut lines, "cli.help.command.validate");
            push_blank(&mut lines);
            push_msg(&mut lines, "cli.help.validate.usage");
            push_blank(&mut lines);
            push_msg(&mut lines, "cli.help.validate.options");
            push_row(&mut lines, "      --langs <LANGS>    ", "cli.help.validate.option.langs");
            push_row(&mut lines, "      --en <EN>          ", "cli.help.validate.option.en");
            push_common_options(&mut lines);
        },
        HelpTarget::Status => {
            push_msg(&mut lines, "cli.help.command.status");
            push_blank(&mut lines);
            push_msg(&mut lines, "cli.help.status.usage");
            push_blank(&mut lines);
            push_msg(&mut lines, "cli.help.status.options");
            push_row(&mut lines, "      --langs <LANGS>    ", "cli.help.status.option.langs");
            push_row(&mut lines, "      --en <EN>          ", "cli.help.status.option.en");
            push_common_options(&mut lines);
        },
        HelpTarget::Translate => {
            push_msg(&mut lines, "cli.help.command.translate");
            push_blank(&mut lines);
            push_msg(&mut lines, "cli.help.translate.usage");
            push_blank(&mut lines);
            push_msg(&mut lines, "cli.help.translate.options");
            push_row(&mut lines, "      --langs <LANGS>            ", "cli.help.translate.option.langs");
            push_row(&mut lines, "      --en <EN>                  ", "cli.help.translate.option.en");
            push_row(&mut lines, "      --auth-mode <AUTH_MODE>    ", "cli.help.translate.option.auth_mode");
            push_row(&mut lines, "      --codex-home <CODEX_HOME>  ", "cli.help.translate.option.codex_home");
            push_row(&mut lines, "      --batch-size <BATCH_SIZE>  ", "cli.help.translate.option.batch_size");
            push_row(&mut lines, "      --max-retries <MAX_RETRIES> ", "cli.help.translate.option.max_retries");
            push_row(&mut lines, "      --glossary <GLOSSARY>      ", "cli.help.translate.option.glossary");
            push_row(&mut lines, "      --api-key-stdin            ", "cli.help.translate.option.api_key_stdin");
            push_row(&mut lines, "      --overwrite-manual         ", "cli.help.translate.option.overwrite_manual");
            push_row(&mut lines, "      --cache-dir <CACHE_DIR>    ", "cli.help.translate.option.cache_dir");
            push_row(&mut lines, "      --locale <LOCALE>          ", "cli.help.option.locale");
            push_row(&mut lines, "  -h, --help                     ", "cli.help.option.help");
        },
    }
    lines
}

/// The help page the command line asks for.
pub fn help_for_args(args: &[String]) -> (lines: Vec<HelpLine>)
    ensures
        lines_view(lines@) == help_layout(crate::workflow::help_target_from(crate::text::strings_view(args@), 1)),
{
    help_lines(crate::workflow::help_target_from_args(args))
}

} // verus!
