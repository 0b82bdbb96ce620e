# koto_runtime ranges

The integer range type of the Koto runtime, `KRange`, written in Verus with
its behaviour stated in contracts and proved.

- `src/range.rs`: `KRange`, its mathematical model (`start_bound`, `end_bound`,
  `sorted_bounds`, `elements`) and all of its operations.

`KRange::pop_back` keeps the runtime's steps rather than walking the elements
from the back: an ascending range hands out its end bound (outside the range
when the end is exclusive) and moves the end down, or up when the bounds are
held in 64-bit form; a descending range hands out its start, as `pop_front`
does. Its contract states these steps exactly, and the walk from the back only
where it holds: ascending inclusive ranges held in 32-bit form.

`KRange::intersection` returns the intersection of the two sorted ranges, or
`None` when they share no number.
- `src/convert.rs`: `KRange::from` for the range expressions of Rust.
- `src/format.rs`: decimal rendering used by `KRange::to_string`.
- `src/laws.rs`: properties that relate several operations.
- `app/lib.rs`: the Koto number type `KNumber`, which holds an `f32` and so
  stays outside the verified code, and `range_contains`, which asks a range
  about a number.
