# bookmark_index

A full-text index of bookmarked Matrix events, verified with Verus.

A bookmark is an event of a dedicated room that points at an event of another room. The library
keeps one index over the bookmarked events of all rooms:

- `index` and `execute`: the index itself, which searches, adds, removes and replaces bookmarks;
- `builder` and `guard`: how an index comes about, and the place that holds it;
- `handling`: what the events of the bookmarks room mean for the index;
- `search` and `global`: searches in one room and across rooms, page by page;
- `rooms`: the rooms of a client, and the room that holds the bookmarks;
- `nesting`: how deeply a query may be nested;
- `bookmark`, `events`, `ids`, `operation`, `error`: the values that all of this is about.

`model` says what an index holds and what operations do to it. `engine` is the boundary to the
full-text engine, `tantivy`: what it promises is stated there, over the model, and believed. `laws`
holds what is proved of the library as a whole, and `lists`, `lookup` and `steps` hold lemmas.

What is known of the contents of an index depends on where it is. An index in memory that only its
handle reaches is called private, and its contents are known exactly as long as its commits succeed.
Of an index on disk it is known what each commit left, and nothing of what happens in between.

`app/` is ordinary Rust around the library: directories on disk, the lock that an index is shared
behind, and the conversation with a Matrix client.
