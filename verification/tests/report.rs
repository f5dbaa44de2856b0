//! The report: its sections, its headings, and where it goes.

use receipter::calendar::Meeting;
use receipter::date::{Date, Moment, Time};
use receipter::report::{
    append_meetings, append_section, bins_heading, compose, date_line, meetings_heading, output,
    parse_date, parse_time, picture_output, picture_source, report_date, shows_icons, transport_heading, wants_bins,
    wants_transport, Output, PictureSource, Sections, Wanted,
};
use receipter::settings::{log_filter, CacheSettings, ImageSettings};

fn date(year: i32, month: u32, day: u32) -> Date {
    Date { year, month, day }
}

fn meeting(hour: u32, summary: &str) -> Meeting {
    Meeting {
        start: Moment { secs: 0, nanos: 0, hour, minute: 30 },
        all_day: false,
        summary: summary.into(),
        calendar: None,
    }
}

#[test]
fn a_section_follows_a_separator_and_a_heading() {
    assert_eq!(
        append_section("weather\n\n", "Transport", "bus \n\n"),
        "weather\n\n----------------------------------------\nTransport\n\nbus\n"
    );
}

#[test]
fn meetings_are_listed_or_said_to_be_none() {
    assert_eq!(
        append_meetings("w", "Meetings", &[meeting(9, "Standup"), meeting(11, "Review")]),
        "w\n\n----------------------------------------\nMeetings\n\n\
         09:30    Standup\n11:30    Review\n"
    );
    assert!(append_meetings("w", "Meetings", &[]).ends_with("Meetings\n\nNo meetings.\n"));
}

#[test]
fn headings_say_how_far_off_the_day_is() {
    let today = date(2026, 2, 28);
    assert_eq!(meetings_heading(today, today), "Today's meetings");
    assert_eq!(meetings_heading(date(2026, 3, 1), today), "Tomorrow's meetings");
    assert_eq!(meetings_heading(date(2026, 3, 2), today), "Meetings");
    assert_eq!(meetings_heading(date(2026, 2, 27), today), "Meetings");
    assert_eq!(bins_heading(today, date(2026, 3, 1)), "Bin day tomorrow");
    assert_eq!(bins_heading(today, date(2026, 3, 6)), "Bin day in 6 days");
    assert_eq!(bins_heading(today, today), "Bin day today");
    assert_eq!(transport_heading(None), "Transport");
    assert_eq!(transport_heading(Some(Time { hour: 7, minute: 5 })), "Transport from 07:05");
}

#[test]
fn departures_are_looked_up_for_today_or_a_given_time() {
    assert!(wants_transport(3, true, false));
    assert!(wants_transport(3, false, true));
    assert!(!wants_transport(3, false, false));
    assert!(!wants_transport(0, true, true));
    assert!(wants_bins(date(2026, 7, 15), date(2026, 7, 15)));
    assert!(!wants_bins(date(2026, 7, 14), date(2026, 7, 15)));
}

#[test]
fn the_date_of_the_report() {
    let today = date(2026, 12, 31);
    assert_eq!(report_date(today, None, false), today);
    assert_eq!(report_date(today, Some(date(2026, 7, 15)), false), date(2026, 7, 15));
    assert_eq!(report_date(today, None, true), date(2027, 1, 1));
    assert_eq!(date_line(date(2026, 7, 15)), "Wednesday, 15 July 2026");
    assert_eq!(date_line(date(2026, 8, 6)), "Thursday, 06 August 2026");
}

fn wanted() -> Wanted {
    Wanted { file: false, stdout: false, raw: false, text: false, image: false, terminal: true }
}

#[test]
fn where_the_report_goes() {
    assert_eq!(output(wanted()), Output::Printed);
    assert_eq!(output(Wanted { image: true, ..wanted() }), Output::Printed);
    assert_eq!(output(Wanted { text: true, ..wanted() }), Output::PrintedText);
    assert_eq!(output(Wanted { raw: true, ..wanted() }), Output::Raw);
    assert_eq!(output(Wanted { stdout: true, ..wanted() }), Output::Text);
    assert_eq!(output(Wanted { stdout: true, image: true, ..wanted() }), Output::Inline);
    assert_eq!(
        output(Wanted { stdout: true, image: true, terminal: false, ..wanted() }),
        Output::Bytes
    );
    assert_eq!(output(Wanted { file: true, ..wanted() }), Output::File);
}

#[test]
fn where_a_picture_comes_from_and_goes() {
    assert_eq!(picture_source(&None, false), PictureSource::Nowhere);
    assert_eq!(picture_source(&None, true), PictureSource::Pipe);
    assert_eq!(picture_source(&Some("photo.jpg".into()), true), PictureSource::File);
    assert_eq!(picture_source(&Some("-".into()), false), PictureSource::Input);
    assert_eq!(picture_output(wanted()), Output::Printed);
    assert_eq!(picture_output(Wanted { raw: true, ..wanted() }), Output::Raw);
    assert_eq!(picture_output(Wanted { stdout: true, ..wanted() }), Output::Inline);
    assert_eq!(
        picture_output(Wanted { stdout: true, terminal: false, ..wanted() }),
        Output::Bytes
    );
    assert_eq!(picture_output(Wanted { file: true, ..wanted() }), Output::File);
}

#[test]
fn icons_are_for_images_only() {
    assert!(shows_icons(wanted(), true));
    assert!(!shows_icons(wanted(), false));
    assert!(!shows_icons(Wanted { text: true, ..wanted() }, true));
    assert!(!shows_icons(Wanted { stdout: true, ..wanted() }, true));
    assert!(!shows_icons(Wanted { raw: true, ..wanted() }, true));
}

#[test]
fn dates_and_times_of_the_command_line() {
    assert_eq!(parse_date("20260716"), Ok(date(2026, 7, 16)));
    assert_eq!(
        parse_date("16 July"),
        Err("`16 July` is not a valid date, expected YYYYMMDD".to_string())
    );
    assert_eq!(parse_time("0730"), Ok(Time { hour: 7, minute: 30 }));
    assert_eq!(parse_time("07:30"), Ok(Time { hour: 7, minute: 30 }));
    assert_eq!(
        parse_time("2460"),
        Err("`2460` is not a valid time, expected HHMM".to_string())
    );
}

#[test]
fn the_sections_follow_one_another() {
    let today = date(2026, 7, 15);
    let none = Sections { meetings: None, transport: None, bins: None };
    assert_eq!(compose("sunny\n", &none, today, today, None), "sunny\n");
    let all = Sections {
        meetings: Some(vec![]),
        transport: Some("bus\n".into()),
        bins: Some((date(2026, 7, 16), "Food\n".into())),
    };
    let line = "\n\n----------------------------------------\n";
    assert_eq!(
        compose("sunny\n", &all, today, today, Some(Time { hour: 9, minute: 0 })),
        format!(
            "sunny{line}Today's meetings\n\nNo meetings.{line}Transport from 09:00\n\nbus{line}\
             Bin day tomorrow\n\nFood\n"
        )
    );
}

#[test]
fn settings_that_are_not_given() {
    let cache = CacheSettings::default();
    assert_eq!((cache.path.as_str(), cache.ttl_minutes), ("cache.sqlite", 30));
    let image = ImageSettings::default();
    assert_eq!(image.width, 576);
    assert_eq!(image.font, "fonts/JetBrainsMonoNerdFontMono-Regular.ttf");
    assert_eq!(log_filter(0, "receipter"), "warn,rrule=error");
    assert_eq!(log_filter(1, "receipter"), "warn,rrule=error,receipter=debug");
    assert_eq!(log_filter(9, "receipter"), "warn,rrule=error,receipter=trace");
}
