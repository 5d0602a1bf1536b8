//! Search output: format selection and the table and TSV renderings.

use vstd::prelude::*;

use crate::cli::OutputFormat;
use crate::config::{
    nonempty_view, opt_view, override_opt, ConfigFile, EnvSnapshot, Profile, find_profile_spec,
};
use crate::slack::ChannelInfo;
use crate::text;

verus! {

/// The format a configured value selects; an unrecognized value falls
/// through to terminal detection.
pub open spec fn format_of_str(v: Seq<char>, stdout_is_terminal: bool) -> OutputFormat {
    if text::eq_icase_spec(v, "table"@) {
        OutputFormat::Table
    } else if text::eq_icase_spec(v, "tsv"@) {
        OutputFormat::Tsv
    } else if text::eq_icase_spec(v, "json"@) {
        OutputFormat::Json
    } else if stdout_is_terminal {
        OutputFormat::Table
    } else {
        OutputFormat::Tsv
    }
}

/// The format terminal detection alone selects.
pub open spec fn format_of_tty(stdout_is_terminal: bool) -> OutputFormat {
    if stdout_is_terminal {
        OutputFormat::Table
    } else {
        OutputFormat::Tsv
    }
}

/// The output value the configuration and environment resolve to.
pub open spec fn resolved_output_view(
    c: ConfigFile,
    pf: Option<Profile>,
    env: EnvSnapshot,
) -> Option<Seq<char>> {
    match env.output {
        Some(v) => Some(v@),
        None => opt_view(
            override_opt(
                c.default.output,
                match pf {
                    Some(pp) => pp.output,
                    None => None,
                },
            ),
        ),
    }
}

/// Decide the output format: the command-line flag wins; then the
/// configured value (environment before profile before default); an
/// unrecognized or absent value falls back to terminal detection.
pub fn resolve_output_format(
    cli_output: Option<OutputFormat>,
    config: &ConfigFile,
    profile_name: Option<&String>,
    env: &EnvSnapshot,
    stdout_is_terminal: bool,
) -> (r: OutputFormat)
    ensures
        ({
            let pf = match profile_name {
                Some(n) => find_profile_spec(config.profiles@, n@),
                None => None,
            };
            r == match cli_output {
                Some(f) => f,
                None => match resolved_output_view(*config, pf, *env) {
                    Some(v) => format_of_str(v, stdout_is_terminal),
                    None => format_of_tty(stdout_is_terminal),
                },
            }
        }),
{
    if let Some(f) = cli_output {
        return f;
    }
    match crate::config::resolve_output(config, profile_name, env) {
        Some(s) => {
            if text::eq_ignore_ascii_case(s.as_str(), "table") {
                OutputFormat::Table
            } else if text::eq_ignore_ascii_case(s.as_str(), "tsv") {
                OutputFormat::Tsv
            } else if text::eq_ignore_ascii_case(s.as_str(), "json") {
                OutputFormat::Json
            } else if stdout_is_terminal {
                OutputFormat::Table
            } else {
                OutputFormat::Tsv
            }
        },
        None => {
            if stdout_is_terminal {
                OutputFormat::Table
            } else {
                OutputFormat::Tsv
            }
        },
    }
}

/// Decide the output format from the environment alone.
pub fn resolve_output_format_headless(
    cli_output: Option<OutputFormat>,
    env: &EnvSnapshot,
    stdout_is_terminal: bool,
) -> (r: OutputFormat)
    ensures
        r == match cli_output {
            Some(f) => f,
            None => match env.output {
                Some(v) => format_of_str(v@, stdout_is_terminal),
                None => format_of_tty(stdout_is_terminal),
            },
        },
{
    if let Some(f) = cli_output {
        return f;
    }
    match &env.output {
        Some(s) => {
            if text::eq_ignore_ascii_case(s.as_str(), "table") {
                OutputFormat::Table
            } else if text::eq_ignore_ascii_case(s.as_str(), "tsv") {
                OutputFormat::Tsv
            } else if text::eq_ignore_ascii_case(s.as_str(), "json") {
                OutputFormat::Json
            } else if stdout_is_terminal {
                OutputFormat::Table
            } else {
                OutputFormat::Tsv
            }
        },
        None => {
            if stdout_is_terminal {
                OutputFormat::Table
            } else {
                OutputFormat::Tsv
            }
        },
    }
}

/// The widest channel name, at least the header's width of four.
pub open spec fn name_width(s: Seq<ChannelInfo>) -> int
    decreases s.len(),
{
    if s.len() == 0 {
        4
    } else {
        let m = name_width(s.drop_last());
        if s.last().name@.len() > m {
            s.last().name@.len() as int
        } else {
            m
        }
    }
}

/// The widest channel type, at least the header's width of four.
pub open spec fn type_width(s: Seq<ChannelInfo>) -> int
    decreases s.len(),
{
    if s.len() == 0 {
        4
    } else {
        let m = type_width(s.drop_last());
        if s.last().channel_type@.len() > m {
            s.last().channel_type@.len() as int
        } else {
            m
        }
    }
}

/// Does any listed channel carry a user id?
pub open spec fn has_user(s: Seq<ChannelInfo>) -> bool {
    exists|i: int| 0 <= i < s.len() && (#[trigger] s[i]).user_id is Some
}

/// The user-id column value: the id, or nothing.
pub open spec fn user_view(u: Option<String>) -> Seq<char> {
    match u {
        Some(s) => s@,
        None => Seq::empty(),
    }
}

/// One table row with the user-id column.
pub open spec fn row_wide(c: ChannelInfo, nw: int, tw: int) -> Seq<char> {
    text::pad_spec(c.name@, nw) + "  "@ + text::pad_spec(c.channel_type@, tw) + "  "@
        + text::pad_spec(c.channel_id@, 13) + "  "@ + user_view(c.user_id) + "\n"@
}

/// One table row without the user-id column.
pub open spec fn row_narrow(c: ChannelInfo, nw: int, tw: int) -> Seq<char> {
    text::pad_spec(c.name@, nw) + "  "@ + text::pad_spec(c.channel_type@, tw) + "  "@
        + c.channel_id@ + "\n"@
}

/// The rows with the user-id column, in listing order.
pub open spec fn rows_wide(s: Seq<ChannelInfo>, nw: int, tw: int) -> Seq<char>
    decreases s.len(),
{
    if s.len() == 0 {
        Seq::empty()
    } else {
        rows_wide(s.drop_last(), nw, tw) + row_wide(s.last(), nw, tw)
    }
}

/// The rows without the user-id column, in listing order.
pub open spec fn rows_narrow(s: Seq<ChannelInfo>, nw: int, tw: int) -> Seq<char>
    decreases s.len(),
{
    if s.len() == 0 {
        Seq::empty()
    } else {
        rows_narrow(s.drop_last(), nw, tw) + row_narrow(s.last(), nw, tw)
    }
}

/// The whole table: a header and one row per channel; the user-id column
/// appears only when some channel has one.
pub open spec fn table_spec(s: Seq<ChannelInfo>) -> Seq<char> {
    let nw = name_width(s);
    let tw = type_width(s);
    if has_user(s) {
        text::pad_spec("NAME"@, nw) + "  "@ + text::pad_spec("TYPE"@, tw) + "  "@ + text::pad_spec(
            "CHANNEL_ID"@,
            13,
        ) + "  "@ + "USER_ID"@ + "\n"@ + rows_wide(s, nw, tw)
    } else {
        text::pad_spec("NAME"@, nw) + "  "@ + text::pad_spec("TYPE"@, tw) + "  "@ + "CHANNEL_ID"@
            + "\n"@ + rows_narrow(s, nw, tw)
    }
}

/// Render the channel listing as an aligned table.
#[verifier::rlimit(80)]
pub fn format_table(channels: &Vec<ChannelInfo>) -> (r: String)
    ensures
        r@ == table_spec(channels@),
{
    let ghost all = channels@;
    let n = channels.len();

    // Column widths and the user-id column.
    let mut nw: usize = 4;
    let mut tw: usize = 4;
    let mut with_user = false;
    let mut i: usize = 0;
    proof {
        assert(all.take(0) =~= Seq::<ChannelInfo>::empty());
    }
    while i < n
        invariant
            i <= n,
            n == all.len(),
            channels@ == all,
            nw == name_width(all.take(i as int)),
            tw == type_width(all.take(i as int)),
            with_user == has_user(all.take(i as int)),
        decreases n - i,
    {
        proof {
            assert(all.take(i + 1).drop_last() =~= all.take(i as int));
            assert(all.take(i + 1).last() == all[i as int]);
        }
        let cn = channels[i].name.as_str().unicode_len();
        if cn > nw {
            nw = cn;
        }
        let ct = channels[i].channel_type.as_str().unicode_len();
        if ct > tw {
            tw = ct;
        }
        if channels[i].user_id.is_some() {
            with_user = true;
        }
        proof {
            if !with_user {
                assert(forall|k: int|
                    0 <= k < i + 1 ==> !((#[trigger] all.take(i + 1)[k]).user_id is Some));
            }
        }
        i = i + 1;
    }
    proof {
        assert(all.take(n as int) =~= all);
    }

    // Header.
    let mut out = text::pad_right("NAME", nw);
    out.append("  ");
    out.append(text::pad_right("TYPE", tw).as_str());
    out.append("  ");
    if with_user {
        out.append(text::pad_right("CHANNEL_ID", 13).as_str());
        out.append("  ");
        out.append("USER_ID");
    } else {
        out.append("CHANNEL_ID");
    }
    out.append("\n");
    let ghost header = out@;

    // Rows.
    let mut j: usize = 0;
    proof {
        assert(all.take(0) =~= Seq::<ChannelInfo>::empty());
        if with_user {
            assert(out@ =~= header + rows_wide(all.take(0), nw as int, tw as int));
        } else {
            assert(out@ =~= header + rows_narrow(all.take(0), nw as int, tw as int));
        }
    }
    while j < n
        invariant
            j <= n,
            n == all.len(),
            channels@ == all,
            out@ == header + if with_user {
                rows_wide(all.take(j as int), nw as int, tw as int)
            } else {
                rows_narrow(all.take(j as int), nw as int, tw as int)
            },
        decreases n - j,
    {
        proof {
            assert(all.take(j + 1).drop_last() =~= all.take(j as int));
            assert(all.take(j + 1).last() == all[j as int]);
        }
        out.append(text::pad_right(channels[j].name.as_str(), nw).as_str());
        out.append("  ");
        out.append(text::pad_right(channels[j].channel_type.as_str(), tw).as_str());
        out.append("  ");
        if with_user {
            out.append(text::pad_right(channels[j].channel_id.as_str(), 13).as_str());
            out.append("  ");
            if let Some(u) = &channels[j].user_id {
                out.append(u.as_str());
            }
            out.append("\n");
            proof {
                assert(user_view(all[j as int].user_id) =~= match all[j as int].user_id {
                    Some(s) => s@,
                    None => Seq::<char>::empty(),
                });
                assert(out@ =~= header + rows_wide(all.take(j + 1), nw as int, tw as int));
            }
        } else {
            out.append(channels[j].channel_id.as_str());
            out.append("\n");
            proof {
                assert(out@ =~= header + rows_narrow(all.take(j + 1), nw as int, tw as int));
            }
        }
        j = j + 1;
    }
    proof {
        assert(all.take(n as int) =~= all);
        assert(out@ =~= table_spec(all));
    }
    out
}

/// One TSV row: the four columns separated by tabs.
pub open spec fn tsv_row(c: ChannelInfo) -> Seq<char> {
    c.name@ + "\t"@ + c.channel_type@ + "\t"@ + c.channel_id@ + "\t"@ + user_view(c.user_id)
        + "\n"@
}

/// The whole TSV rendering, one row per channel.
pub open spec fn tsv_spec(s: Seq<ChannelInfo>) -> Seq<char>
    decreases s.len(),
{
    if s.len() == 0 {
        Seq::empty()
    } else {
        tsv_spec(s.drop_last()) + tsv_row(s.last())
    }
}

/// Render the channel listing as tab-separated values.
pub fn format_tsv(channels: &Vec<ChannelInfo>) -> (r: String)
    ensures
        r@ == tsv_spec(channels@),
{
    let ghost all = channels@;
    let n = channels.len();
    let mut out = String::new();
    let mut j: usize = 0;
    proof {
        assert(all.take(0) =~= Seq::<ChannelInfo>::empty());
        assert(out@ =~= tsv_spec(all.take(0)));
    }
    while j < n
        invariant
            j <= n,
            n == all.len(),
            channels@ == all,
            out@ == tsv_spec(all.take(j as int)),
        decreases n - j,
    {
        proof {
            assert(all.take(j + 1).drop_last() =~= all.take(j as int));
            assert(all.take(j + 1).last() == all[j as int]);
        }
        out.append(channels[j].name.as_str());
        out.append("\t");
        out.append(channels[j].channel_type.as_str());
        out.append("\t");
        out.append(channels[j].channel_id.as_str());
        out.append("\t");
        if let Some(u) = &channels[j].user_id {
            out.append(u.as_str());
        }
        out.append("\n");
        proof {
            assert(user_view(all[j as int].user_id) =~= match all[j as int].user_id {
                Some(s) => s@,
                None => Seq::<char>::empty(),
            });
            assert(out@ =~= tsv_spec(all.take(j + 1)));
        }
        j = j + 1;
    }
    proof {
        assert(all.take(n as int) =~= all);
    }
    out
}

} // verus!
