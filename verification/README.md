# todomvc

A TodoMVC application for the browser, built with wasm-bindgen and web-sys,
whose model is verified with Verus.

- `src/` is the verified library:
  - `store.rs`: todo items, lists of items, queries and updates, and the
    store that holds the list read from local storage and hands out what to
    write back after each change;
  - `controller.rs`: the reaction to each user action, stated as a function
    from the controller's state and the action to the next state and the
    requests made of the view;
  - `scheduler.rs`: the message queue between controller and view, handled
    first in, first out, each message exactly once;
  - `json.rs`: the text the list is kept as in local storage, read and
    written through the JavaScript engine's JSON, so that a read gives back
    what a write wrote;
  - `template.rs`: the HTML of the todo list and of the "items left" counter;
  - `text.rs`: decimal notation, reading ids back, trimming, and the route
    named by a location hash;
  - `view.rs`: the requests to the view and the view's selectors and classes.
- `app/` holds what runs in the browser: the page, reading and writing the
  local storage value, the console, and the loop that drives the scheduler.
- `tests/` runs the library on concrete values.
