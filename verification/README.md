# climate_controller

A stage-based climate controller for a Raspberry Pi: relays on GPIO pins, vents
driven by two pins, a temperature sensor, and a status web page.

- `src/` is the verified library (Verus):
  - `time_range`: the time-of-day window condition;
  - `peripheral`: pin and vent commands, and the presets that send them;
  - `config`: the configuration and the plan that turns it into stages;
  - `controller`: stages and the stage set's state machine;
  - `temperature`: the decisions on the sensor's readings;
  - `startup`: what the program does at start;
  - `status`: what the status page reports.
- `app/` is the program around it: command line, configuration file, GPIO,
  async tasks, floating-point work and the web server.
- `tests/` exercises the library.
