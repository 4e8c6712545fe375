# DataFusion ray tracer

A ray tracer in which every pixel is a row of a table and every step of the tracing
a column that a query engine computes.

- `src/` is the verified library. `scene` and `gallery` say which scenes there are, in
  what order they are rendered and what each asks for. `gradient` and `sphere` are single
  queries, the latter written from the expressions of `sql`; `dataframe_sphere`,
  `multi_sphere`, `shadows` and `refraction` build plans of columns from the geometry in
  `trace` and `vector`. Formulas (`formula`) are plain trees; `engine` makes them
  expressions of DataFusion. `ppm` turns the resulting table into an image.
- The laws say that columns are made of what is there (`soundness`,
  `refraction_soundness`), that the engine takes names as they are written (`plainness`),
  that pixels stay in place (`places`), what an image shows (`visibility`), that the two
  scenes with a single sphere agree (`agreement`), and how light is reflected and
  refracted (`optics`). `meaning` gives the values of formulas for any arithmetic,
  `ideal` for that of the real numbers.
- `app/` is the program: it runs the queries and writes the files.

Numbers are IEEE double-precision patterns; their arithmetic is left to the engine.
