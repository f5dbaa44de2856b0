# receipter

A morning receipt for an ESC/POS thermal printer: the weather, the day's
meetings, departures nearby and the bins to put out. The rules behind it are a
library written in Verus, so what they do is stated in contracts and proved.

## Layout

- `src/` is the library. Every function in it has a contract.
  - `text`, `order`, `date`: text as sequences of characters, sorting, the
    calendar.
  - `cache`: the record of calls, and when an entry of it is used again.
  - `weather`, `calendar/`, `transport/`, `bins/`: the sections of the report.
    Requests go through functions that the caller hands in; the contracts say
    which requests are made and what becomes of the answers.
  - `report`: how the sections are put together, and where the report goes.
  - `font`, `layout`, `printer`, `raster`: what becomes of the report on paper,
    in an image and in a terminal, and how a picture is printed in its place.
  - `settings`: settings that are taken where none are given.
- `app/` is the program: the command line, the settings file, requests, the
  database, drawing with a font, and the printer.
- `tests/` runs the library on concrete values.

## What is proved

A function named `law_...` states a property of several functions, or of all
inputs. Among them:

- what is stored in the cache is what is read back, a date that has passed is
  served for good, and a failed call is answered with the newest entry;
- the key of the transport service is never stored;
- the bins section appears on the eve of a collection and on no other day,
  unless it is asked for;
- house 1 is not confused with house 11;
- of the pages of a council that loads its collections slowly, the first one that
  is loaded is taken, and no other is kept;
- lines fit the width of the paper, and the lines of an image do not overlap;
- the meetings of a feed come in order, and all of them fall on the day;
- a picture in black and white is printed dot for dot.

What the library has from other crates (reading dates and feeds, time zones,
recurring events, glyphs) stands behind small functions whose contracts are
taken on trust; the comment above each says what is claimed.

## Settings and options

`receipter --help` lists the options. The settings file is `settings.toml`:

```toml
endpoint = "192.168.1.100:9100"
location = "London"
address = "1 Random road, London, SE1 1LS"

[[calendars]]
type = "ics"
name = "Work"
ics_url = "https://example.com/basic.ics"

[transport]
app_id = "your-app-id"
app_key = "your-app-key"

[bins]
council = "Bromley"

[cache]
path = "cache.sqlite"
ttl_minutes = 30

[image]
width = 576
font = "fonts/JetBrainsMonoNerdFontMono-Regular.ttf"
font_size = 28.0
```

A picture counts as one with real shades, and is dithered by `--dither auto`,
when more than one dot in twenty is neither nearly black nor nearly white.
