# dataplot

A small plotting toolkit: a dot plot, a box plot and a bar graph drawn on
HTML canvases with yew.

- `src/` is the verified library (Verus). It never computes with floating
  point: a plotted number is carried by the order key of its bit pattern
  (`key`), and on those keys it finds runs of equal values and the stacking
  height of each dot (`runs`), sorts (`sort`), places the median and the
  quartiles and selects the outliers beyond the box plot's fences
  (`summary`), and keeps the widgets' state and answers their messages
  (`widgets`).
- `app/` is the web front end: the yew components, the canvas drawing, and
  the floating-point work (means, standard deviations, fences, tick scales,
  coordinates).
- `tests/` runs the library on concrete values.
