# strava_client

A client for the canteen ordering service Strava: it reads a user's menu,
decides which orders to cancel or replace from the user's settings, builds the
requests that the ordering service and the settings database expect, and reads
their replies.

The library under `src/` is verified with Verus:

- `text`, `json`, `entries`: text helpers, the JSON values the library reads,
  and ordered key/value lists as an index map keeps them.
- `date`, `date_order`: calendar dates written `dd.mm.yyyy`, with the Czech
  name of their weekday, and their chronological order.
- `menu`: the user's menu as the ordering service sends it, held in an
  `IndexMap` by date and by dish name.
- `settings`: the automatic canceling (`cancel`, `replace`, `cancelAll`,
  `disabled`) as a plan of orders.
- `scrape`: the menu page read with `scraper` and merged with the menu.
- `cantine`, `requests`, `reply`, `server`, `data`: canteen lists and menus,
  request bodies and addresses, the replies of the services, and the bodies
  of the server's answers.
- `laws`: properties that span several functions, stated and proved.

`app/` holds the parts that do I/O (HTTP with `reqwest`, the browser with
`fantoccini`, decoding into the settings types with serde) and call the
library: the session with the ordering service, the automatic canceling, the
browser, the canteen crawler and a client that keeps the user's menu.
`tests/` runs the library on concrete values.

Not part of this crate: the web server's request handlers and its scheduled
update of the canteens' dish history (they need the web framework, the
scheduler and a database client), the desktop application's window and
commands, and the reading of the configuration file.
