# rust_ui_core

The core data structures of a native mobile UI framework, verified with Verus.

- `src/` is the verified library:
  - `layout`: the generic `Size` and `Position` types;
  - `icon`: system icons;
  - `view::persistent_storage`: storage that survives rerenders, keyed by
    view identity and object kind, and the garbage collection of views that
    registered a cleanup function (register, mark as used, clear all flags,
    run a cycle);
  - `view::resources`: the resource collection handed to views while they
    render, with temporary amendments that are undone afterwards;
  - `view::state`: view state and bindings in shared cells, and the queue
    that schedules each changed view once and rerenders every scheduled view;
  - `view::shared`: the standard library cells behind the state, declared to
    the verifier.
- `app/` holds what the verifier cannot take: the typed access to storage and
  resources through `std::any`, and the floating point layout traits that the
  platform backends implement.
- `tests/` exercises the library.
