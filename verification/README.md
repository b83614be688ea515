# nmea0183 (sensor fields)

Reading of the three-axis sensor readings (`Dim3`) of NMEA 0183 `OBS`
sentences, verified with Verus.

- `src/fields.rs`: `Fields`, the comma-separated fields of a sentence read
  one at a time, modelled as the sequence of fields not read yet
  (`split_fields`), with the law that the fields joined by the separator give
  back the text.
- `src/common.rs`: `parse_decimal_i16` and `parse_i16`, decimal `i16` fields
  (optional sign, digits, range), where a missing or empty field reads as
  `None`.
- `src/obs.rs`: `Dim3` and `Dim3::parse`, which reads the next three fields.
- `app/lib.rs`: `OBS`, whose pressure, temperature and time hold `f32`
  values, built on the library.
